//! `find`: the search paths, entry types and name patterns of a search.
use regex::Regex;
use vstd::prelude::*;
use crate::text::string_of;

verus! {

/// The regular-expression type of the `regex` crate, carried through as is.
#[verifier::external_type_specification]
#[verifier::external_body]
pub struct ExRegex(regex::Regex);

/// The error type of `Regex::new`.
#[verifier::external_type_specification]
#[verifier::external_body]
pub struct ExRegexError(regex::Error);

/// Whether `regex` compiles `pattern` on this target (the pattern is valid
/// and the compiled program stays within the default size limit, which is
/// measured in memory and so depends on the target's pointer width).
pub uninterp spec fn regex_compiles(pattern: Seq<char>) -> bool;

/// The pattern text that a compiled `Regex` was built from (what
/// `Regex::as_str` returns).
pub uninterp spec fn regex_pattern(re: Regex) -> Seq<char>;

/// Compiles a regular expression.
/// Trusted: `regex::Regex::new` succeeds exactly when `regex_compiles` holds
/// of the pattern, which depends on the pattern alone (on a given target),
/// and the `Regex` it returns keeps that pattern as its text. How it matches
/// is not stated.
#[verifier::external_body]
fn compile_regex(pattern: &str) -> (r: Result<Regex, regex::Error>)
    ensures
        r is Ok <==> regex_compiles(pattern@),
        r matches Ok(re) ==> regex_pattern(re) == pattern@,
{
    Regex::new(pattern)
}

/// The pattern text of a compiled regular expression.
/// Trusted: `Regex::as_str` returns the original string the regex was
/// compiled from.
#[verifier::external_body]
fn regex_as_str(re: &Regex) -> (s: &str)
    ensures
        s@ == regex_pattern(*re),
{
    re.as_str()
}

/// The kinds of entries a search lists.
#[derive(Debug, Clone, Copy, PartialEq, Eq, Structural)]
pub enum EntryType {
    Dir,
    File,
    Link,
}

/// The entry type that a command-line value names: `d`, `f` or `l`.
pub open spec fn entry_type_of(v: Seq<char>) -> Option<EntryType> {
    if v == seq!['d'] {
        Some(EntryType::Dir)
    } else if v == seq!['f'] {
        Some(EntryType::File)
    } else if v == seq!['l'] {
        Some(EntryType::Link)
    } else {
        None
    }
}

impl EntryType {
    /// The entry type that `v` names, if any.
    pub fn from_name(v: &str) -> (t: Option<EntryType>)
        ensures
            t == entry_type_of(v@),
    {
        if v.unicode_len() != 1 {
            return None;
        }
        let c = v.get_char(0);
        if c == 'd' {
            assert(v@ =~= seq!['d']);
            Some(EntryType::Dir)
        } else if c == 'f' {
            assert(v@ =~= seq!['f']);
            Some(EntryType::File)
        } else if c == 'l' {
            assert(v@ =~= seq!['l']);
            Some(EntryType::Link)
        } else {
            None
        }
    }
}

/// A search: where to look, which entry types to list (all where none is
/// given) and which name patterns to match.
#[derive(Debug)]
pub struct Args {
    pub path: Vec<String>,
    pub entry_types: Vec<EntryType>,
    pub names: Vec<Regex>,
}

/// Compiles a name pattern, as the command line does for each `--name`
/// value: succeeds exactly when `regex` compiles the pattern, and the error
/// is the one `regex` gives.
pub fn compile_name(pattern: &str) -> (r: Result<Regex, regex::Error>)
    ensures
        r is Ok <==> regex_compiles(pattern@),
        r matches Ok(re) ==> regex_pattern(re) == pattern@,
{
    compile_regex(pattern)
}

/// The name patterns of a search, as text, in order.
pub fn name_patterns(args: &Args) -> (ps: Vec<String>)
    ensures
        ps@.len() == args.names@.len(),
        forall|i: int| 0 <= i < ps@.len() ==> #[trigger] ps@[i]@ == regex_pattern(args.names@[i]),
{
    let mut ps: Vec<String> = Vec::new();
    let mut i: usize = 0;
    while i < args.names.len()
        invariant
            i <= args.names@.len(),
            ps@.len() == i,
            forall|j: int| 0 <= j < i ==> #[trigger] ps@[j]@ == regex_pattern(args.names@[j]),
        decreases args.names.len() - i,
    {
        ps.push(string_of(regex_as_str(&args.names[i])));
        i = i + 1;
    }
    ps
}

/// Builds the search from the command-line values, each already checked
/// (types by `EntryType::from_name`, patterns by `compile_name`, in the
/// order they were given): no path means `.`, and the types and patterns
/// are kept in order.
pub fn get_args(path: Vec<String>, entry_types: Vec<EntryType>, names: Vec<Regex>) -> (r: Result<
    Args,
    String,
>)
    ensures
        r matches Ok(a) && {
            &&& a.entry_types == entry_types
            &&& a.names == names
            &&& path@.len() > 0 ==> a.path@ == path@
            &&& path@.len() == 0 ==> a.path@.len() == 1 && a.path@[0]@ == "."@
        },
{
    let mut path = path;
    if path.len() == 0 {
        path.push(string_of("."));
    }
    Ok(Args { path, entry_types, names })
}

} // verus!
