//! The configuration: which deck the notes of a path go to, and which paths
//! are passed over.
//!
//! Paths are told apart by regular expressions. Whether an expression
//! matches is the one thing here that is not proved but asked of the regex
//! crate.

use vstd::prelude::*;
use crate::error::HandleMdError;

verus! {

/// What a search for the regular expression `pattern` in `text` gives:
/// whether there is a match anywhere in `text`, or nothing where `pattern`
/// is not a regular expression that the regex crate compiles.
pub uninterp spec fn regex_search(pattern: Seq<char>, text: Seq<char>) -> Option<bool>;

/// Calls `regex::Regex::new` on `pattern` and `regex::Regex::is_match` on
/// what it returns. The contract gives the outcome a name: it is a function
/// of the pattern and the text alone. Nothing is claimed of which texts a
/// pattern matches.
#[verifier::external_body]
fn search(pattern: &str, text: &str) -> (r: Option<bool>)
    ensures
        r == regex_search(pattern@, text@),
{
    match regex::Regex::new(pattern) {
        Ok(re) => Some(re.is_match(text)),
        Err(_) => None,
    }
}

/// The notes of the files whose path matches `path` go to `deck`.
#[derive(Debug, PartialEq, Eq)]
pub struct PathToDeck {
    /// A regular expression.
    pub path: String,
    pub deck: String,
}

/// The configuration of a run.
#[derive(Debug, PartialEq, Eq)]
pub struct Config {
    /// The first mapping whose expression matches a path gives its deck.
    pub path_to_deck: Vec<PathToDeck>,
    /// Regular expressions for the directories that are passed over.
    pub ignore_paths: Vec<String>,
    /// All math is taken for LaTeX.
    pub disable_typst: bool,
}

impl Default for Config {
    /// Every path goes to the deck `Obsidian`, and the directories of
    /// Excalidraw are passed over.
    fn default() -> (r: Config)
        ensures
            r.path_to_deck@.len() == 1,
            r.path_to_deck@[0].path@ == ".*"@,
            r.path_to_deck@[0].deck@ == "Obsidian"@,
            r.ignore_paths@.len() == 1,
            r.ignore_paths@[0]@ == ".*Excalidraw"@,
            !r.disable_typst,
    {
        let mut path_to_deck: Vec<PathToDeck> = Vec::new();
        path_to_deck.push(
            PathToDeck { path: String::from_str(".*"), deck: String::from_str("Obsidian") },
        );
        let mut ignore_paths: Vec<String> = Vec::new();
        ignore_paths.push(String::from_str(".*Excalidraw"));
        Config { path_to_deck, ignore_paths, disable_typst: false }
    }
}

/// The first index from `i` on of a search that found a match.
pub open spec fn first_hit_from(hits: Seq<Option<bool>>, i: int) -> Option<int>
    decreases hits.len() - i,
{
    if i < 0 || i >= hits.len() {
        None
    } else if hits[i] == Some(true) {
        Some(i)
    } else {
        first_hit_from(hits, i + 1)
    }
}

/// The index of the first search that found a match. A search with an
/// expression that is none finds nothing.
pub fn first_hit(hits: &Vec<Option<bool>>) -> (r: Option<usize>)
    ensures
        match r {
            Some(k) => first_hit_from(hits@, 0) == Some(k as int) && k < hits@.len(),
            None => first_hit_from(hits@, 0) is None,
        },
{
    let mut i: usize = 0;
    while i < hits.len()
        invariant
            i <= hits@.len(),
            first_hit_from(hits@, 0) == first_hit_from(hits@, i as int),
        decreases hits@.len() - i,
    {
        match hits[i] {
            Some(true) => {
                return Some(i);
            },
            _ => {},
        }
        i += 1;
    }
    None
}

/// What the searches for each mapping's expression in `path` give, in the
/// order of the mappings.
pub open spec fn deck_searches(mappings: Seq<PathToDeck>, path: Seq<char>) -> Seq<Option<bool>> {
    Seq::new(mappings.len(), |i: int| regex_search(mappings[i].path@, path))
}

/// What the searches for each of the expressions in `path` give, in order.
pub open spec fn ignore_searches(patterns: Seq<String>, path: Seq<char>) -> Seq<Option<bool>> {
    Seq::new(patterns.len(), |i: int| regex_search(patterns[i]@, path))
}

/// The deck for the notes of the file at `path`: that of the first mapping
/// whose expression matches the path. Without one, the lookup fails with the
/// path.
pub fn lookup_deck<'a>(config: &'a Config, path: &str) -> (r: Result<&'a String, HandleMdError>)
    ensures
        match first_hit_from(deck_searches(config.path_to_deck@, path@), 0) {
            Some(k) => 0 <= k < config.path_to_deck@.len() && r == Ok::<
                &String,
                HandleMdError,
            >(&config.path_to_deck@[k].deck),
            None => r is Err && r->Err_0 is DeckLookup && r->Err_0->DeckLookup_0@ == path@,
        },
{
    let mut hits: Vec<Option<bool>> = Vec::new();
    let mut i: usize = 0;
    while i < config.path_to_deck.len()
        invariant
            i <= config.path_to_deck@.len(),
            hits@ =~= deck_searches(config.path_to_deck@, path@).take(i as int),
        decreases config.path_to_deck@.len() - i,
    {
        hits.push(search(config.path_to_deck[i].path.as_str(), path));
        i += 1;
    }
    assert(hits@ =~= deck_searches(config.path_to_deck@, path@));
    match first_hit(&hits) {
        Some(k) => Ok(&config.path_to_deck[k].deck),
        None => Err(HandleMdError::DeckLookup(String::from_str(path))),
    }
}

/// Whether the directory at `path` is passed over: one of the expressions
/// for such directories matches the path.
pub fn is_ignored(config: &Config, path: &str) -> (r: bool)
    ensures
        r == first_hit_from(ignore_searches(config.ignore_paths@, path@), 0) is Some,
{
    let mut hits: Vec<Option<bool>> = Vec::new();
    let mut i: usize = 0;
    while i < config.ignore_paths.len()
        invariant
            i <= config.ignore_paths@.len(),
            hits@ =~= ignore_searches(config.ignore_paths@, path@).take(i as int),
        decreases config.ignore_paths@.len() - i,
    {
        hits.push(search(config.ignore_paths[i].as_str(), path));
        i += 1;
    }
    assert(hits@ =~= ignore_searches(config.ignore_paths@, path@));
    first_hit(&hits).is_some()
}

} // verus!
