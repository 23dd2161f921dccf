//! What a run does with each entry of a directory, and with each note file
//! that it comes to.

use vstd::prelude::*;
use crate::config::{first_hit_from, ignore_searches, is_ignored, Config};
use crate::text::{chars_of, same_str, string_of};

verus! {

/// What an entry of a directory is.
#[derive(Clone, Copy, Debug, PartialEq, Eq)]
pub enum EntryKind {
    Directory,
    File,
    Other,
}

/// What a run does with an entry of a directory.
#[derive(Clone, Copy, Debug, PartialEq, Eq)]
pub enum EntryAction {
    /// It goes through the directory.
    Recurse,
    /// It takes the file for a note file.
    Note,
    /// It passes over the entry.
    Skip,
}

/// The extension of note files.
pub open spec fn note_extension() -> Seq<char> {
    "md"@
}

/// The position from `p` backwards of the last `.` of `name` that has a
/// character before it.
pub open spec fn last_dot_from(name: Seq<char>, p: int) -> Option<int>
    decreases p + 1,
{
    if p < 1 || p >= name.len() {
        None
    } else if name[p] == '.' {
        Some(p)
    } else {
        last_dot_from(name, p - 1)
    }
}

/// The name of a file is that of a note file: it ends in `.md`, and more
/// than that.
pub open spec fn is_note_name(name: Seq<char>) -> bool {
    match last_dot_from(name, name.len() - 1) {
        Some(d) => name.subrange(d + 1, name.len() as int) == note_extension(),
        None => false,
    }
}

/// Whether the name of a file is that of a note file.
pub fn note_name(name: &str) -> (r: bool)
    ensures
        r == is_note_name(name@),
{
    let chars = chars_of(name);
    let n = chars.len();
    if n < 2 {
        return false;
    }
    let mut p: usize = n - 1;
    while p >= 1
        invariant
            p < n == chars@.len(),
            chars@ == name@,
            last_dot_from(name@, name@.len() - 1) == last_dot_from(name@, p as int),
        decreases p,
    {
        if chars[p] == '.' {
            let ext = string_of(chars.as_slice(), p + 1, n);
            return same_str(ext.as_str(), "md");
        }
        p -= 1;
    }
    false
}

/// What a run does with an entry: it goes through a directory unless its
/// path is to be passed over, and it takes a file for a note file by its
/// name. `path` is the entry's path in full, `name` its file name.
pub fn entry_action(config: &Config, kind: EntryKind, path: &str, name: &str) -> (r: EntryAction)
    ensures
        r == (match kind {
            EntryKind::Directory => if first_hit_from(
                ignore_searches(config.ignore_paths@, path@),
                0,
            ) is Some {
                EntryAction::Skip
            } else {
                EntryAction::Recurse
            },
            EntryKind::File => if is_note_name(name@) {
                EntryAction::Note
            } else {
                EntryAction::Skip
            },
            EntryKind::Other => EntryAction::Skip,
        }),
{
    match kind {
        EntryKind::Directory => if is_ignored(config, path) {
            EntryAction::Skip
        } else {
            EntryAction::Recurse
        },
        EntryKind::File => if note_name(name) {
            EntryAction::Note
        } else {
            EntryAction::Skip
        },
        EntryKind::Other => EntryAction::Skip,
    }
}

/// What a run does with a note file.
#[derive(Clone, Copy, Debug, PartialEq, Eq)]
pub enum FileAction {
    /// The file is handled.
    Handle,
    /// The file is handled, and its hash is remembered.
    HandleAndRemember,
    /// The file is as it was: its notes are only marked as seen.
    MarkSeen,
    /// The file is as it was: nothing is done.
    Skip,
}

/// What a run does with a note file. Without a cache every file is handled.
/// With one, a file is handled if the cache holds no hash for it or another
/// one than it has now; a file that is as it was has its notes marked as
/// seen where the run keeps track of that.
pub open spec fn action_for(
    caching: bool,
    cached: Option<Seq<u8>>,
    hash: Seq<u8>,
    track_seen: bool,
) -> FileAction {
    if !caching {
        FileAction::Handle
    } else if cached != Some(hash) {
        FileAction::HandleAndRemember
    } else if track_seen {
        FileAction::MarkSeen
    } else {
        FileAction::Skip
    }
}

fn same_bytes(a: &Vec<u8>, b: &Vec<u8>) -> (r: bool)
    ensures
        r == (a@ == b@),
{
    if a.len() != b.len() {
        return false;
    }
    let mut i: usize = 0;
    while i < a.len()
        invariant
            i <= a@.len() == b@.len(),
            forall|k: int| 0 <= k < i ==> a@[k] == b@[k],
        decreases a@.len() - i,
    {
        if a[i] != b[i] {
            return false;
        }
        i += 1;
    }
    assert(a@ =~= b@);
    true
}

/// What a run does with a note file whose hash is `hash`, where the cache,
/// if there is one, holds `cached` for it.
pub fn file_action(caching: bool, cached: Option<&Vec<u8>>, hash: &Vec<u8>, track_seen: bool) -> (r:
    FileAction)
    ensures
        r == action_for(
            caching,
            match cached {
                Some(c) => Some(c@),
                None => None,
            },
            hash@,
            track_seen,
        ),
{
    if !caching {
        return FileAction::Handle;
    }
    let same = match cached {
        Some(c) => same_bytes(c, hash),
        None => false,
    };
    if !same {
        FileAction::HandleAndRemember
    } else if track_seen {
        FileAction::MarkSeen
    } else {
        FileAction::Skip
    }
}

/// Whether the run ends by offering the unseen notes for deletion: it does
/// where every note file was looked at, that is without a cache or with
/// track kept of what was seen.
pub fn offers_deletion(caching: bool, track_seen: bool) -> (r: bool)
    ensures
        r == (!caching || track_seen),
{
    !caching || track_seen
}

/// Whether `flag` is among the arguments of the program after the first
/// two.
pub open spec fn has_flag_spec(args: Seq<String>, flag: Seq<char>) -> bool {
    exists|i: int| 2 <= i < args.len() && (#[trigger] args[i])@ == flag
}

/// Whether `flag` is among the arguments of the program after the first
/// two.
pub fn has_flag(args: &Vec<String>, flag: &str) -> (r: bool)
    ensures
        r == has_flag_spec(args@, flag@),
{
    let mut i: usize = 2;
    while i < args.len()
        invariant
            2 <= i,
            forall|k: int| 2 <= k < i && k < args@.len() ==> (#[trigger] args@[k])@ != flag@,
        decreases args@.len() - i,
    {
        if same_str(args[i].as_str(), flag) {
            return true;
        }
        i += 1;
    }
    false
}

} // verus!
