//! The errors that converting a note can end in.

use vstd::prelude::*;

verus! {

/// Why the probe that tells Typst math from LaTeX math failed. Each variant
/// holds the cause, as text.
#[derive(Debug, PartialEq, Eq)]
pub enum IsTypstError {
    Spawn(String),
    StdinWrite(String),
    Wait(String),
}

/// Why converting Typst math to LaTeX failed. Each variant holds the cause,
/// as text.
#[derive(Debug, PartialEq, Eq)]
pub enum TypstToLatexError {
    Spawn(String),
    StdinWrite(String),
    Wait(String),
    ErrExit(String),
    Utf8(String),
}

/// Why a math span could not be converted.
#[derive(Debug, PartialEq, Eq)]
pub enum MathConvertError {
    IsTypst(IsTypstError),
    TypstToLatex(TypstToLatexError),
}

/// Why a note could not be handled.
#[derive(Debug, PartialEq, Eq)]
pub enum HandleMdError {
    /// Reading or writing `file` failed with `error`.
    ReadWriteFile { file: String, error: String },
    /// The snapshot of known notes could not be locked.
    Lock(String),
    MathConvert(MathConvertError),
    /// No deck is configured for this path.
    DeckLookup(String),
}

impl IsTypstError {
    /// A copy of the error.
    pub fn duplicate(&self) -> (r: Self)
        ensures
            r == *self,
    {
        match self {
            IsTypstError::Spawn(m) => IsTypstError::Spawn(m.clone()),
            IsTypstError::StdinWrite(m) => IsTypstError::StdinWrite(m.clone()),
            IsTypstError::Wait(m) => IsTypstError::Wait(m.clone()),
        }
    }

    /// The cause that the error holds.
    pub open spec fn detail(self) -> Seq<char> {
        match self {
            IsTypstError::Spawn(m) => m@,
            IsTypstError::StdinWrite(m) => m@,
            IsTypstError::Wait(m) => m@,
        }
    }

    /// What the message says before the cause.
    pub open spec fn headline(self) -> Seq<char> {
        match self {
            IsTypstError::Spawn(_) => "Failed to spawn typst process: "@,
            IsTypstError::StdinWrite(_) => "Failed to write to typst process stdin: "@,
            IsTypstError::Wait(_) => "Failed to wait for typst process: "@,
        }
    }

    /// The error in words.
    pub open spec fn message_text(self) -> Seq<char> {
        self.headline() + self.detail()
    }

    /// The error in words.
    pub fn message(&self) -> (r: String)
        ensures
            r@ == self.message_text(),
    {
        let (head, detail) = match self {
            IsTypstError::Spawn(m) => ("Failed to spawn typst process: ", m),
            IsTypstError::StdinWrite(m) => ("Failed to write to typst process stdin: ", m),
            IsTypstError::Wait(m) => ("Failed to wait for typst process: ", m),
        };
        let mut r = String::from_str(head);
        r.append(detail.as_str());
        r
    }
}

impl TypstToLatexError {
    /// A copy of the error.
    pub fn duplicate(&self) -> (r: Self)
        ensures
            r == *self,
    {
        match self {
            TypstToLatexError::Spawn(m) => TypstToLatexError::Spawn(m.clone()),
            TypstToLatexError::StdinWrite(m) => TypstToLatexError::StdinWrite(m.clone()),
            TypstToLatexError::Wait(m) => TypstToLatexError::Wait(m.clone()),
            TypstToLatexError::ErrExit(m) => TypstToLatexError::ErrExit(m.clone()),
            TypstToLatexError::Utf8(m) => TypstToLatexError::Utf8(m.clone()),
        }
    }

    /// The cause that the error holds.
    pub open spec fn detail(self) -> Seq<char> {
        match self {
            TypstToLatexError::Spawn(m) => m@,
            TypstToLatexError::StdinWrite(m) => m@,
            TypstToLatexError::Wait(m) => m@,
            TypstToLatexError::ErrExit(m) => m@,
            TypstToLatexError::Utf8(m) => m@,
        }
    }

    /// What the message says before the cause.
    pub open spec fn headline(self) -> Seq<char> {
        match self {
            TypstToLatexError::Spawn(_) => "Failed to spawn pandoc process: "@,
            TypstToLatexError::StdinWrite(_) => "Failed to write to pandoc process stdin: "@,
            TypstToLatexError::Wait(_) => "Failed to wait for pandoc process: "@,
            TypstToLatexError::ErrExit(_) => "Pandoc failed: "@,
            TypstToLatexError::Utf8(_) => "Pandoc output not utf8: "@,
        }
    }

    /// The error in words.
    pub open spec fn message_text(self) -> Seq<char> {
        self.headline() + self.detail()
    }

    /// The error in words.
    pub fn message(&self) -> (r: String)
        ensures
            r@ == self.message_text(),
    {
        let (head, detail) = match self {
            TypstToLatexError::Spawn(m) => ("Failed to spawn pandoc process: ", m),
            TypstToLatexError::StdinWrite(m) => ("Failed to write to pandoc process stdin: ", m),
            TypstToLatexError::Wait(m) => ("Failed to wait for pandoc process: ", m),
            TypstToLatexError::ErrExit(m) => ("Pandoc failed: ", m),
            TypstToLatexError::Utf8(m) => ("Pandoc output not utf8: ", m),
        };
        let mut r = String::from_str(head);
        r.append(detail.as_str());
        r
    }
}

impl MathConvertError {
    /// A copy of the error.
    pub fn duplicate(&self) -> (r: Self)
        ensures
            r == *self,
    {
        match self {
            MathConvertError::IsTypst(e) => MathConvertError::IsTypst(e.duplicate()),
            MathConvertError::TypstToLatex(e) => MathConvertError::TypstToLatex(e.duplicate()),
        }
    }

    /// The error in words.
    pub open spec fn message_text(self) -> Seq<char> {
        match self {
            MathConvertError::IsTypst(e) => "Checking if math is typst failed: "@
                + e.message_text(),
            MathConvertError::TypstToLatex(e) => "Converting typst to latex failed: "@
                + e.message_text(),
        }
    }

    /// The error in words.
    pub fn message(&self) -> (r: String)
        ensures
            r@ == self.message_text(),
    {
        match self {
            MathConvertError::IsTypst(e) => {
                let mut r = String::from_str("Checking if math is typst failed: ");
                r.append(e.message().as_str());
                r
            },
            MathConvertError::TypstToLatex(e) => {
                let mut r = String::from_str("Converting typst to latex failed: ");
                r.append(e.message().as_str());
                r
            },
        }
    }
}

impl HandleMdError {
    /// The error in words.
    pub open spec fn message_text(self) -> Seq<char> {
        match self {
            HandleMdError::ReadWriteFile { file, error } => "Reading/writing file ("@ + file@
                + ") failed: "@ + error@,
            HandleMdError::Lock(m) => "Failed to lock NOTES: "@ + m@,
            HandleMdError::MathConvert(e) => "Failed to convert math: "@ + e.message_text(),
            HandleMdError::DeckLookup(p) => "No matching anki deck found for path "@ + p@,
        }
    }

    /// The error in words.
    pub fn message(&self) -> (r: String)
        ensures
            r@ == self.message_text(),
    {
        match self {
            HandleMdError::ReadWriteFile { file, error } => {
                let mut r = String::from_str("Reading/writing file (");
                r.append(file.as_str());
                r.append(") failed: ");
                r.append(error.as_str());
                r
            },
            HandleMdError::Lock(m) => {
                let mut r = String::from_str("Failed to lock NOTES: ");
                r.append(m.as_str());
                r
            },
            HandleMdError::MathConvert(e) => {
                let mut r = String::from_str("Failed to convert math: ");
                r.append(e.message().as_str());
                r
            },
            HandleMdError::DeckLookup(p) => {
                let mut r = String::from_str("No matching anki deck found for path ");
                r.append(p.as_str());
                r
            },
        }
    }
}

} // verus!
