//! `cat`: prints files, optionally numbering all lines or the non-blank ones.
use vstd::prelude::*;
use crate::text::{decimal, pad_left, right_align, push_str, push_char, string_of};

verus! {

/// What to print and how to number it.
#[derive(Debug)]
pub struct Config {
    pub files: Vec<String>,
    pub number_lines: bool,
    pub number_nonblank_lines: bool,
}

/// The message for `--number` together with `--number-nonblank`.
pub open spec fn number_conflict() -> Seq<char> {
    "the argument '--number' cannot be used with '--number-nonblank'"@
}

/// Builds the configuration from the command line: `--number` and
/// `--number-nonblank` exclude each other, and no file means standard input
/// (`-`).
///
/// The program has clap apply the same rules to its command line first, so
/// there the error text, which error comes first and the exit status are
/// clap's; the messages stated here are what this function returns.
pub fn get_args(files: Vec<String>, number_lines: bool, number_nonblank_lines: bool) -> (r: Result<
    Config,
    String,
>)
    ensures
        r is Err <==> number_lines && number_nonblank_lines,
        r matches Err(e) ==> e@ == number_conflict(),
        r matches Ok(c) ==> {
            &&& c.number_lines == number_lines
            &&& c.number_nonblank_lines == number_nonblank_lines
            &&& files@.len() > 0 ==> c.files@ == files@
            &&& files@.len() == 0 ==> c.files@.len() == 1 && c.files@[0]@ == "-"@
        },
{
    if number_lines && number_nonblank_lines {
        return Err(string_of("the argument '--number' cannot be used with '--number-nonblank'"));
    }
    let mut files = files;
    if files.len() == 0 {
        files.push(string_of("-"));
    }
    Ok(Config { files, number_lines, number_nonblank_lines })
}

/// Whether a line gets a number.
pub open spec fn numbered(number_lines: bool, number_nonblank: bool, line: Seq<char>) -> bool {
    number_lines || (number_nonblank && line.len() > 0)
}

/// The printed form of `line` (without its newline) when `n` lines were
/// numbered before it, and the count of numbered lines after it. A numbered
/// line shows its number right-aligned in 6 columns and a tab; a blank line
/// under `--number-nonblank` prints empty.
pub open spec fn cat_line(number_lines: bool, number_nonblank: bool, n: nat, line: Seq<char>) -> (
    Seq<char>,
    nat,
) {
    if numbered(number_lines, number_nonblank, line) {
        (pad_left(decimal(n + 1), 6) + seq!['\t'] + line, n + 1)
    } else if number_nonblank {
        (seq![], n)
    } else {
        (line, n)
    }
}

/// The printed form of `line`, where `line_num` lines were numbered before
/// it, and the new count of numbered lines.
pub fn format_line(config: &Config, line_num: usize, line: &str) -> (r: (String, usize))
    requires
        line_num < usize::MAX,
    ensures
        (r.0@, r.1 as nat) == cat_line(
            config.number_lines,
            config.number_nonblank_lines,
            line_num as nat,
            line@,
        ),
{
    format_with(config.number_lines, config.number_nonblank_lines, line_num, line)
}

fn format_with(number_lines: bool, number_nonblank: bool, line_num: usize, line: &str) -> (r: (
    String,
    usize,
))
    requires
        line_num < usize::MAX,
    ensures
        (r.0@, r.1 as nat) == cat_line(number_lines, number_nonblank, line_num as nat, line@),
{
    let blank = line.is_empty();
    if number_lines || (number_nonblank && !blank) {
        let n = line_num + 1;
        let mut out = right_align(n, 6);
        push_char(&mut out, '\t');
        push_str(&mut out, line);
        (out, n)
    } else if number_nonblank {
        (String::new(), line_num)
    } else {
        (string_of(line), line_num)
    }
}

/// Prints the lines of all files in turn. One printer serves every file,
/// so the count of numbered lines carries on from one file to the next.
pub struct Cat {
    number_lines: bool,
    number_nonblank: bool,
    line_num: usize,
}

impl Cat {
    /// Whether every line is numbered.
    pub closed spec fn numbers_lines(&self) -> bool {
        self.number_lines
    }

    /// Whether non-blank lines are numbered.
    pub closed spec fn numbers_nonblank(&self) -> bool {
        self.number_nonblank
    }

    /// The count of lines numbered so far, over all files.
    pub closed spec fn numbered_so_far(&self) -> nat {
        self.line_num as nat
    }

    /// A printer for `config` that has printed nothing yet.
    pub fn new(config: &Config) -> (c: Cat)
        ensures
            c.numbers_lines() == config.number_lines,
            c.numbers_nonblank() == config.number_nonblank_lines,
            c.numbered_so_far() == 0,
    {
        Cat {
            number_lines: config.number_lines,
            number_nonblank: config.number_nonblank_lines,
            line_num: 0,
        }
    }

    /// The count of lines numbered so far.
    pub fn line_num(&self) -> (n: usize)
        ensures
            n == self.numbered_so_far(),
    {
        self.line_num
    }

    /// The printed form of the next line, whichever file it comes from.
    pub fn print_line(&mut self, line: &str) -> (out: String)
        requires
            old(self).numbered_so_far() < usize::MAX,
        ensures
            final(self).numbers_lines() == old(self).numbers_lines(),
            final(self).numbers_nonblank() == old(self).numbers_nonblank(),
            (out@, final(self).numbered_so_far()) == cat_line(
                old(self).numbers_lines(),
                old(self).numbers_nonblank(),
                old(self).numbered_so_far(),
                line@,
            ),
    {
        let (out, n) = format_with(self.number_lines, self.number_nonblank, self.line_num, line);
        self.line_num = n;
        out
    }
}

/// The printed lines of `lines`, each after the ones before it, starting
/// from `n` numbered lines, and the count of numbered lines at the end.
pub open spec fn cat_lines(number_lines: bool, number_nonblank: bool, n: nat, lines: Seq<Seq<char>>) -> (
    Seq<Seq<char>>,
    nat,
)
    decreases lines.len(),
{
    if lines.len() == 0 {
        (seq![], n)
    } else {
        let (out, m) = cat_lines(number_lines, number_nonblank, n, lines.drop_last());
        let (o, m2) = cat_line(number_lines, number_nonblank, m, lines.last());
        (out.push(o), m2)
    }
}

/// The number of lines of `lines` that get a number.
pub open spec fn numbered_count(number_lines: bool, number_nonblank: bool, lines: Seq<Seq<char>>) -> nat
    decreases lines.len(),
{
    if lines.len() == 0 {
        0
    } else {
        numbered_count(number_lines, number_nonblank, lines.drop_last()) + if numbered(
            number_lines,
            number_nonblank,
            lines.last(),
        ) {
            1nat
        } else {
            0nat
        }
    }
}

/// Numbering goes on from line to line (and file to file): every line is
/// printed once, in order, and a numbered line shows the count of numbered
/// lines up to and including it. With `--number` that is its position.
pub proof fn lemma_cat_numbering(number_lines: bool, number_nonblank: bool, n: nat, lines: Seq<Seq<char>>)
    ensures
        cat_lines(number_lines, number_nonblank, n, lines).0.len() == lines.len(),
        cat_lines(number_lines, number_nonblank, n, lines).1 == n + numbered_count(
            number_lines,
            number_nonblank,
            lines,
        ),
        forall|i: int|
            0 <= i < lines.len() && numbered(number_lines, number_nonblank, #[trigger] lines[i])
                ==> cat_lines(number_lines, number_nonblank, n, lines).0[i] == pad_left(
                decimal(n + numbered_count(number_lines, number_nonblank, lines.take(i + 1))),
                6,
            ) + seq!['\t'] + lines[i],
        number_lines ==> numbered_count(number_lines, number_nonblank, lines) == lines.len(),
    decreases lines.len(),
{
    if lines.len() > 0 {
        let pre = lines.drop_last();
        lemma_cat_numbering(number_lines, number_nonblank, n, pre);
        assert(lines.take(lines.len() as int) =~= lines);
        assert forall|i: int|
            0 <= i < lines.len() && numbered(number_lines, number_nonblank, #[trigger] lines[i])
                implies cat_lines(number_lines, number_nonblank, n, lines).0[i] == pad_left(
            decimal(n + numbered_count(number_lines, number_nonblank, lines.take(i + 1))),
            6,
        ) + seq!['\t'] + lines[i] by {
            if i < lines.len() - 1 {
                assert(pre.take(i + 1) =~= lines.take(i + 1));
                assert(pre[i] == lines[i]);
            }
        }
    }
}


/// Printing one file after another is printing their lines one after
/// another: the second file's numbering goes on from where the first ended.
pub proof fn lemma_cat_files(
    number_lines: bool,
    number_nonblank: bool,
    n: nat,
    a: Seq<Seq<char>>,
    b: Seq<Seq<char>>,
)
    ensures
        ({
            let (out_a, m) = cat_lines(number_lines, number_nonblank, n, a);
            let (out_b, m2) = cat_lines(number_lines, number_nonblank, m, b);
            cat_lines(number_lines, number_nonblank, n, a + b) == (out_a + out_b, m2)
        }),
    decreases b.len(),
{
    if b.len() == 0 {
        assert(a + b =~= a);
        let (out_a, m) = cat_lines(number_lines, number_nonblank, n, a);
        assert(out_a + seq![] =~= out_a);
    } else {
        lemma_cat_files(number_lines, number_nonblank, n, a, b.drop_last());
        assert((a + b).drop_last() =~= a + b.drop_last());
        assert((a + b).last() == b.last());
        let (out_a, m) = cat_lines(number_lines, number_nonblank, n, a);
        let (out_b0, m1) = cat_lines(number_lines, number_nonblank, m, b.drop_last());
        let (o, m2) = cat_line(number_lines, number_nonblank, m1, b.last());
        assert((out_a + out_b0).push(o) =~= out_a + out_b0.push(o));
    }
}


/// What `cat` prints for one line: with `--number` every line gets the next
/// number; with `--number-nonblank` exactly the non-empty lines (spaces
/// count) get the next number and an empty line prints empty; with neither
/// the line prints as it is. A line is never cut: the printed form ends with
/// the whole line, or is empty only for an empty line.
pub proof fn lemma_cat_line(number_lines: bool, number_nonblank: bool, n: nat, line: Seq<char>)
    ensures
        number_lines ==> cat_line(number_lines, number_nonblank, n, line) == (
            pad_left(decimal(n + 1), 6) + seq!['\t'] + line,
            n + 1,
        ),
        !number_lines && number_nonblank && line.len() > 0 ==> cat_line(
            number_lines,
            number_nonblank,
            n,
            line,
        ) == (pad_left(decimal(n + 1), 6) + seq!['\t'] + line, n + 1),
        !number_lines && number_nonblank && line.len() == 0 ==> cat_line(
            number_lines,
            number_nonblank,
            n,
            line,
        ) == (Seq::<char>::empty(), n),
        !number_lines && !number_nonblank ==> cat_line(number_lines, number_nonblank, n, line) == (
            line,
            n,
        ),
        ({
            let out = cat_line(number_lines, number_nonblank, n, line).0;
            &&& out.len() >= line.len()
            &&& out.subrange(out.len() - line.len(), out.len() as int) == line
        }),
{
    let out = cat_line(number_lines, number_nonblank, n, line).0;
    assert(out.subrange(out.len() - line.len(), out.len() as int) =~= line);
}

} // verus!
