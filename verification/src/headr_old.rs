//! The first version of `head`: reads the line and byte counts as text and
//! checks them.
use vstd::prelude::*;
use crate::text::{parsed_usize, parse_usize, string_of, decimal, lemma_decimal_parses};

verus! {

/// What to show of each file.
#[derive(Debug)]
pub struct Config {
    pub files: Vec<String>,
    pub num_lines: usize,
    pub num_bytes: Option<usize>,
}

/// What `parse_positive_int` gives for `val`: the number it writes where it
/// is a positive `usize`, else the text itself as the error.
pub open spec fn positive_int_of(val: Seq<char>) -> Result<usize, Seq<char>> {
    match parsed_usize(val) {
        Some(n) => if n > 0 {
            Ok(n)
        } else {
            Err(val)
        },
        None => Err(val),
    }
}

/// Parses a positive integer; the error is the text that was given.
pub fn parse_positive_int(val: &str) -> (r: Result<usize, String>)
    ensures
        match positive_int_of(val@) {
            Ok(n) => r == Ok::<usize, String>(n),
            Err(e) => (r matches Err(s) && s@ == e),
        },
{
    match parse_usize(val) {
        Some(n) => if n > 0 {
            Ok(n)
        } else {
            Err(string_of(val))
        },
        None => Err(string_of(val)),
    }
}

/// The message for `--lines` together with `--bytes`.
pub open spec fn lines_bytes_conflict() -> Seq<char> {
    "Cannot specify both --lines and --bytes"@
}

/// Builds the configuration from the command line: `--lines` and `--bytes`
/// exclude each other, each must be a positive integer, the line count is 10
/// by default, and no file means standard input (`-`).
pub fn get_args(files: Vec<String>, num_lines: Option<String>, num_bytes: Option<String>) -> (r:
    Result<Config, String>)
    ensures
        (num_lines is Some && num_bytes is Some) ==> (r matches Err(e) && e@
            == lines_bytes_conflict()),
        num_bytes is None ==> match num_lines {
            Some(l) => match positive_int_of(l@) {
                Ok(n) => (r matches Ok(c) && c.num_lines == n && c.num_bytes is None),
                Err(e) => (r matches Err(s) && s@ == e),
            },
            None => (r matches Ok(c) && c.num_lines == 10 && c.num_bytes is None),
        },
        num_lines is None ==> match num_bytes {
            Some(b) => match positive_int_of(b@) {
                Ok(n) => (r matches Ok(c) && c.num_lines == 10 && c.num_bytes == Some(n)),
                Err(e) => (r matches Err(s) && s@ == e),
            },
            None => true,
        },
        r matches Ok(c) ==> {
            &&& files@.len() > 0 ==> c.files@ == files@
            &&& files@.len() == 0 ==> c.files@.len() == 1 && c.files@[0]@ == "-"@
        },
{
    if num_lines.is_some() && num_bytes.is_some() {
        return Err(string_of("Cannot specify both --lines and --bytes"));
    }
    let mut files = files;
    if files.len() == 0 {
        files.push(string_of("-"));
    }
    let lines = match num_lines {
        Some(l) => parse_positive_int(l.as_str())?,
        None => 10,
    };
    let bytes = match num_bytes {
        Some(b) => Some(parse_positive_int(b.as_str())?),
        None => None,
    };
    Ok(Config { files, num_lines: lines, num_bytes: bytes })
}


/// Every positive integer is accepted, written as `str::parse` reads it,
/// and nothing else: zero and text that is no number are refused with the
/// text itself. In particular a positive number printed in decimal is read
/// back as itself.
pub proof fn lemma_positive_int(s: Seq<char>, n: usize)
    ensures
        parsed_usize(s) == Some(n) && n > 0 ==> positive_int_of(s) == Ok::<usize, Seq<char>>(n),
        positive_int_of(s) matches Ok(m) ==> m > 0 && parsed_usize(s) == Some(m),
        positive_int_of(s) matches Err(e) ==> e == s,
        n > 0 ==> positive_int_of(decimal(n as nat)) == Ok::<usize, Seq<char>>(n),
{
    lemma_decimal_parses(n);
}

} // verus!
