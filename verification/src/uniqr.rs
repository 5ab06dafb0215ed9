//! `uniq`: collapses runs of adjacent lines that are equal once trailing
//! whitespace is removed, optionally with the length of each run.
use vstd::prelude::*;
use crate::text::{trim_end, decimal, pad_left, right_align, push_str, push_char, string_of,
    trimmed_eq, ends_with_newline, lemma_pad_left};

verus! {

/// The command line: input file (`-` for standard input), optional output
/// file, and whether to show counts.
#[derive(Debug)]
pub struct Args {
    pub in_file: String,
    pub out_file: Option<String>,
    pub count: bool,
}

/// Builds the arguments; no input file means standard input (`-`).
pub fn get_args(in_file: Option<String>, out_file: Option<String>, count: bool) -> (r: Result<
    Args,
    String,
>)
    ensures
        r matches Ok(a) && {
            &&& a.out_file == out_file
            &&& a.count == count
            &&& in_file matches Some(f) ==> a.in_file == f
            &&& in_file is None ==> a.in_file@ == "-"@
        },
{
    let in_file = match in_file {
        Some(f) => f,
        None => string_of("-"),
    };
    Ok(Args { in_file, out_file, count })
}

/// The state of the grouping: the line that opened the current run and how
/// many lines the run holds so far.
pub struct UniqState {
    pub prev: Seq<char>,
    pub count: nat,
}

/// The state before any line: an empty current line and no run.
pub open spec fn uniq_init() -> UniqState {
    UniqState { prev: seq![], count: 0 }
}

/// One line read: a line that differs (trailing whitespace aside) from the
/// current one closes the run, which is handed out if it holds any line,
/// and opens a new run; an equal line extends the run.
pub open spec fn uniq_step(s: UniqState, line: Seq<char>) -> (UniqState, Seq<(Seq<char>, nat)>) {
    if trim_end(s.prev) != trim_end(line) {
        (
            UniqState { prev: line, count: 1 },
            if s.count > 0 {
                seq![(s.prev, s.count)]
            } else {
                seq![]
            },
        )
    } else {
        (UniqState { prev: s.prev, count: s.count + 1 }, seq![])
    }
}

/// The state after `lines`, and the runs handed out on the way.
pub open spec fn uniq_run(lines: Seq<Seq<char>>) -> (UniqState, Seq<(Seq<char>, nat)>)
    decreases lines.len(),
{
    if lines.len() == 0 {
        (uniq_init(), seq![])
    } else {
        let (s, out) = uniq_run(lines.drop_last());
        let (s2, o) = uniq_step(s, lines.last());
        (s2, out + o)
    }
}

/// The run still open at the end, if it holds any line.
pub open spec fn uniq_finish(s: UniqState) -> Seq<(Seq<char>, nat)> {
    if s.count > 0 {
        seq![(s.prev, s.count)]
    } else {
        seq![]
    }
}

/// The runs of `lines`, each as the line it is shown with and its length.
pub open spec fn uniq_groups(lines: Seq<Seq<char>>) -> Seq<(Seq<char>, nat)> {
    let (s, out) = uniq_run(lines);
    out + uniq_finish(s)
}

/// The view of a group handed out.
pub open spec fn group_view(g: Option<(String, usize)>) -> Seq<(Seq<char>, nat)> {
    match g {
        Some((l, c)) => seq![(l@, c as nat)],
        None => seq![],
    }
}

/// Groups adjacent equal lines as they are read.
pub struct Grouper {
    prev: String,
    count: usize,
}

impl Grouper {
    /// The state of the grouping.
    pub closed spec fn state(&self) -> UniqState {
        UniqState { prev: self.prev@, count: self.count as nat }
    }

    /// A grouping that has read no line.
    pub fn new() -> (g: Grouper)
        ensures
            g.state() == uniq_init(),
    {
        Grouper { prev: String::new(), count: 0 }
    }

    /// How many lines the current run holds.
    pub fn count(&self) -> (c: usize)
        ensures
            c == self.state().count,
    {
        self.count
    }

    /// Reads one line; hands out the run that it closes, if any.
    pub fn push(&mut self, mut line: String) -> (closed: Option<(String, usize)>)
        requires
            old(self).state().count < usize::MAX,
        ensures
            (final(self).state(), group_view(closed)) == uniq_step(old(self).state(), line@),
    {
        if !trimmed_eq(self.prev.as_str(), line.as_str()) {
            let closed = if self.count > 0 {
                std::mem::swap(&mut self.prev, &mut line);
                Some((line, self.count))
            } else {
                self.prev = line;
                None
            };
            self.count = 1;
            closed
        } else {
            self.count = self.count + 1;
            None
        }
    }

    /// Ends the input; hands out the open run, if it holds any line.
    pub fn finish(self) -> (last: Option<(String, usize)>)
        ensures
            group_view(last) == uniq_finish(self.state()),
    {
        if self.count > 0 {
            Some((self.prev, self.count))
        } else {
            None
        }
    }
}

/// The text written for a run: its length right-aligned in 7 columns and a
/// space where counts are shown, then the line, ended by a newline if it
/// has none.
pub open spec fn group_text_of(line: Seq<char>, count: nat, show_count: bool) -> Seq<char> {
    (if show_count {
        pad_left(decimal(count), 7) + seq![' ']
    } else {
        seq![]
    }) + line + if line.len() > 0 && line.last() == '\n' {
        seq![]
    } else {
        seq!['\n']
    }
}

/// The text written for a run of `count` lines shown as `line`.
pub fn group_text(line: &str, count: usize, show_count: bool) -> (r: String)
    ensures
        r@ == group_text_of(line@, count as nat, show_count),
{
    let mut r = String::new();
    if show_count {
        let c = right_align(count, 7);
        push_str(&mut r, c.as_str());
        push_char(&mut r, ' ');
    }
    push_str(&mut r, line);
    if !ends_with_newline(line) {
        push_char(&mut r, '\n');
    }
    assert(r@ =~= group_text_of(line@, count as nat, show_count));
    r
}


/// `n` copies of `line` without its trailing whitespace.
pub open spec fn run_of(line: Seq<char>, n: nat) -> Seq<Seq<char>> {
    Seq::new(n, |i: int| trim_end(line))
}

/// The lines that `groups` stand for, trailing whitespace removed.
pub open spec fn expand(groups: Seq<(Seq<char>, nat)>) -> Seq<Seq<char>>
    decreases groups.len(),
{
    if groups.len() == 0 {
        seq![]
    } else {
        expand(groups.drop_last()) + run_of(groups.last().0, groups.last().1)
    }
}

/// `lines` without their trailing whitespace.
pub open spec fn trimmed(lines: Seq<Seq<char>>) -> Seq<Seq<char>> {
    lines.map_values(|l: Seq<char>| trim_end(l))
}

/// Every run holds a line at least, and no two neighbouring runs are equal
/// (trailing whitespace aside).
pub open spec fn runs_well_formed(groups: Seq<(Seq<char>, nat)>) -> bool {
    &&& forall|i: int| 0 <= i < groups.len() ==> #[trigger] groups[i].1 >= 1
    &&& forall|i: int|
        0 <= i < groups.len() - 1 ==> trim_end(#[trigger] groups[i].0) != trim_end(groups[i + 1].0)
}

proof fn lemma_expand_push(groups: Seq<(Seq<char>, nat)>, g: (Seq<char>, nat))
    ensures
        expand(groups.push(g)) == expand(groups) + run_of(g.0, g.1),
{
    assert(groups.push(g).drop_last() =~= groups);
}

/// What holds after each line: the runs handed out and the open run stand
/// for the lines read, and the open run differs from the last run handed out.
proof fn lemma_uniq_run(lines: Seq<Seq<char>>)
    ensures
        ({
            let (s, out) = uniq_run(lines);
            &&& expand(out) + run_of(s.prev, s.count) == trimmed(lines)
            &&& runs_well_formed(out)
            &&& out.len() > 0 ==> s.count > 0 && trim_end(out.last().0) != trim_end(s.prev)
            &&& lines.len() > 0 ==> s.count > 0
        }),
    decreases lines.len(),
{
    if lines.len() == 0 {
        assert(expand(seq![]) + run_of(seq![], 0) =~= trimmed(lines));
    } else {
        let pre = lines.drop_last();
        let line = lines.last();
        lemma_uniq_run(pre);
        let (s, out) = uniq_run(pre);
        let (s2, o) = uniq_step(s, line);
        assert(trimmed(lines) =~= trimmed(pre).push(trim_end(line)));
        if trim_end(s.prev) != trim_end(line) {
            if s.count > 0 {
                lemma_expand_push(out, (s.prev, s.count));
                assert(out + o =~= out.push((s.prev, s.count)));
            } else {
                assert(out + o =~= out);
                assert(run_of(s.prev, s.count) =~= seq![]);
            }
            assert(run_of(s2.prev, s2.count) =~= seq![trim_end(line)]);
            assert(expand(out + o) + run_of(s2.prev, s2.count) =~= trimmed(lines));
        } else {
            assert(out + o =~= out);
            assert(run_of(s2.prev, s2.count) =~= run_of(s.prev, s.count).push(trim_end(line)));
            assert(expand(out + o) + run_of(s2.prev, s2.count) =~= trimmed(lines));
        }
    }
}

/// The runs of `uniq` are a run-length encoding of the input: written out,
/// they give back every line (trailing whitespace aside) in order, each run
/// holds a line at least, and neighbouring runs differ.
pub proof fn lemma_uniq_groups(lines: Seq<Seq<char>>)
    ensures
        expand(uniq_groups(lines)) == trimmed(lines),
        runs_well_formed(uniq_groups(lines)),
{
    lemma_uniq_run(lines);
    let (s, out) = uniq_run(lines);
    if s.count > 0 {
        lemma_expand_push(out, (s.prev, s.count));
        assert(out + uniq_finish(s) =~= out.push((s.prev, s.count)));
    } else {
        assert(out + uniq_finish(s) =~= out);
        assert(run_of(s.prev, s.count) =~= seq![]);
        assert(expand(out) + run_of(s.prev, s.count) =~= expand(out));
    }
}


/// The text written for a run is the line, ended by exactly one newline of
/// its own; with counts shown, every run, whatever its length, is preceded by
/// that length right-aligned in 7 columns and a space. So the count prefix
/// is the one difference between the two modes.
pub proof fn lemma_group_text(line: Seq<char>, count: nat)
    ensures
        group_text_of(line, count, true) == pad_left(decimal(count), 7) + seq![' '] + group_text_of(
            line,
            count,
            false,
        ),
        group_text_of(line, count, false).subrange(0, line.len() as int) == line,
        group_text_of(line, count, false).last() == '\n',
        group_text_of(line, count, false).len() == line.len() + if line.len() > 0 && line.last()
            == '\n' {
            0int
        } else {
            1int
        },
        pad_left(decimal(count), 7).len() >= 7,
        pad_left(decimal(count), 7).subrange(
            pad_left(decimal(count), 7).len() - decimal(count).len(),
            pad_left(decimal(count), 7).len() as int,
        ) == decimal(count),
{
    let t = group_text_of(line, count, false);
    assert(t.subrange(0, line.len() as int) =~= line);
    assert(group_text_of(line, count, true) =~= pad_left(decimal(count), 7) + seq![' '] + t);
    lemma_pad_left(decimal(count), 7);
}

} // verus!
