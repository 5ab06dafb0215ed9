//! `head`: the first lines or bytes of each input, or all of its lines but
//! the last ones.
use std::collections::VecDeque;
use vstd::prelude::*;
use crate::text::{push_str, string_of};
use vstd::utf8::{valid_utf8, decode_utf8};

verus! {

/// What to show of each file.
#[derive(Debug)]
pub struct Config {
    pub files: Vec<String>,
    /// Lines to show; a negative number shows all lines but that many last ones.
    pub num_lines: isize,
    /// Bytes to show, in place of lines.
    pub num_bytes: Option<usize>,
}

/// The message for `--lines` together with `--bytes`.
pub open spec fn lines_bytes_conflict() -> Seq<char> {
    "the argument '--lines <LINES>' cannot be used with '--bytes <BYTES>'"@
}

/// Builds the configuration from the command line: `--lines` and `--bytes`
/// exclude each other, 10 lines are shown by default, and no file means
/// standard input (`-`).
///
/// The program has clap apply the same rules to its command line first, so
/// there the error text, which error comes first and the exit status are
/// clap's; the messages stated here are what this function returns.
pub fn get_args(files: Vec<String>, num_lines: Option<isize>, num_bytes: Option<usize>) -> (r:
    Result<Config, String>)
    ensures
        r is Err <==> (num_lines is Some && num_bytes is Some),
        r matches Err(e) ==> e@ == lines_bytes_conflict(),
        r matches Ok(c) ==> {
            &&& c.num_bytes == num_bytes
            &&& c.num_lines == match num_lines {
                Some(n) => n,
                None => 10,
            }
            &&& files@.len() > 0 ==> c.files@ == files@
            &&& files@.len() == 0 ==> c.files@.len() == 1 && c.files@[0]@ == "-"@
        },
{
    if num_lines.is_some() && num_bytes.is_some() {
        return Err(string_of("the argument '--lines <LINES>' cannot be used with '--bytes <BYTES>'"));
    }
    let mut files = files;
    if files.len() == 0 {
        files.push(string_of("-"));
    }
    let num_lines = match num_lines {
        Some(n) => n,
        None => 10,
    };
    Ok(Config { files, num_lines, num_bytes })
}

/// What is shown of each input.
#[derive(Debug, Clone, Copy, PartialEq, Eq, Structural)]
pub enum Selection {
    /// The first so many bytes.
    Bytes(usize),
    /// The first so many lines.
    FirstLines(usize),
    /// All lines but the last so many.
    AllButLastLines(usize),
}

/// The selection that a configuration asks for: bytes where given, else the
/// first lines, or all but the last `-num_lines` lines for a negative number.
pub open spec fn selection_of(c: Config) -> Selection {
    match c.num_bytes {
        Some(b) => Selection::Bytes(b),
        None => if c.num_lines < 0 {
            Selection::AllButLastLines((-c.num_lines) as usize)
        } else {
            Selection::FirstLines(c.num_lines as usize)
        },
    }
}

impl Config {
    /// What this configuration shows of each input.
    pub fn selection(&self) -> (s: Selection)
        ensures
            s == selection_of(*self),
            s matches Selection::AllButLastLines(n) ==> n > 0,
    {
        match self.num_bytes {
            Some(b) => Selection::Bytes(b),
            None => if self.num_lines < 0 {
                let m = (-(self.num_lines + 1)) as usize;
                Selection::AllButLastLines(m + 1)
            } else {
                Selection::FirstLines(self.num_lines as usize)
            },
        }
    }
}

/// The heading shown before a file when there are several: a blank line
/// before every heading but the first, then `==> name <==`.
pub open spec fn header_of(file_num: nat, filename: Seq<char>) -> Seq<char> {
    (if file_num > 0 {
        seq!['\n']
    } else {
        seq![]
    }) + "==> "@ + filename + " <=="@
}

/// The heading for the `file_num`-th of `num_files` files, if any is shown.
pub fn header(file_num: usize, filename: &str, num_files: usize) -> (h: Option<String>)
    ensures
        h is Some <==> num_files > 1,
        h matches Some(t) ==> t@ == header_of(file_num as nat, filename@),
{
    if num_files > 1 {
        let mut t = String::new();
        if file_num > 0 {
            push_str(&mut t, "\n");
            proof {
                reveal_strlit("\n");
            }
        }
        push_str(&mut t, "==> ");
        push_str(&mut t, filename);
        push_str(&mut t, " <==");
        assert(t@ =~= header_of(file_num as nat, filename@));
        Some(t)
    } else {
        None
    }
}

/// The state of a line selection: its kind (all but the last lines, or the
/// first lines), its number, how many lines were taken, and the lines held
/// back.
pub struct SelectorState {
    pub skip_last: bool,
    pub limit: nat,
    pub taken: nat,
    pub window: Seq<String>,
}

/// Whether the selection still reads lines.
pub open spec fn wants_more(s: SelectorState) -> bool {
    s.skip_last || s.taken < s.limit
}

/// One line read. Taking the first lines, the line is shown at once.
/// Holding back the last lines, the line joins the held-back ones, and the
/// oldest of them is shown once more than `limit` would be held.
pub open spec fn select_step(s: SelectorState, line: String) -> (SelectorState, Seq<String>) {
    if !s.skip_last {
        (SelectorState { taken: s.taken + 1, ..s }, seq![line])
    } else if s.window.len() == s.limit {
        (SelectorState { window: s.window.drop_first().push(line), ..s }, seq![s.window[0]])
    } else {
        (SelectorState { window: s.window.push(line), ..s }, seq![])
    }
}

/// The state after reading `lines` while the selection wants more, and the
/// lines shown on the way.
pub open spec fn select_run(s: SelectorState, lines: Seq<String>) -> (SelectorState, Seq<String>)
    decreases lines.len(),
{
    if lines.len() == 0 {
        (s, seq![])
    } else {
        let (s1, out) = select_run(s, lines.drop_last());
        if wants_more(s1) {
            let (s2, o) = select_step(s1, lines.last());
            (s2, out + o)
        } else {
            (s1, out)
        }
    }
}

/// The initial state for the first `n` lines.
pub open spec fn first_lines(n: nat) -> SelectorState {
    SelectorState { skip_last: false, limit: n, taken: 0, window: seq![] }
}

/// The initial state for all lines but the last `n`.
pub open spec fn all_but_last(n: nat) -> SelectorState {
    SelectorState { skip_last: true, limit: n, taken: 0, window: seq![] }
}

/// The view of a line handed out.
pub open spec fn shown_view(l: Option<String>) -> Seq<String> {
    match l {
        Some(x) => seq![x],
        None => seq![],
    }
}

/// Chooses, line by line, which lines of an input are shown.
pub struct LineSelector {
    skip_last: bool,
    limit: usize,
    taken: usize,
    window: VecDeque<String>,
}

impl LineSelector {
    /// The state of the selection.
    pub closed spec fn state(&self) -> SelectorState {
        SelectorState {
            skip_last: self.skip_last,
            limit: self.limit as nat,
            taken: self.taken as nat,
            window: self.window@,
        }
    }

    /// The state is one that the selection can reach.
    pub closed spec fn wf(&self) -> bool {
        &&& self.taken <= self.limit
        &&& self.window@.len() <= self.limit
        &&& self.skip_last ==> self.limit > 0
    }

    /// A selection of the first `n` lines.
    pub fn first(n: usize) -> (s: LineSelector)
        ensures
            s.wf(),
            s.state() == first_lines(n as nat),
    {
        LineSelector { skip_last: false, limit: n, taken: 0, window: VecDeque::new() }
    }

    /// A selection of all lines but the last `n`.
    pub fn all_but_last(n: usize) -> (s: LineSelector)
        requires
            n > 0,
        ensures
            s.wf(),
            s.state() == all_but_last(n as nat),
    {
        LineSelector { skip_last: true, limit: n, taken: 0, window: VecDeque::new() }
    }

    /// Whether the selection still reads lines.
    pub fn wants_more(&self) -> (b: bool)
        ensures
            b == wants_more(self.state()),
    {
        self.skip_last || self.taken < self.limit
    }

    /// Reads one line; hands out the line to show now, if any.
    pub fn push(&mut self, line: String) -> (shown: Option<String>)
        requires
            old(self).wf(),
            wants_more(old(self).state()),
        ensures
            final(self).wf(),
            (final(self).state(), shown_view(shown)) == select_step(old(self).state(), line),
    {
        if !self.skip_last {
            self.taken = self.taken + 1;
            Some(line)
        } else if self.window.len() == self.limit {
            let oldest = self.window.pop_front();
            self.window.push_back(line);
            assert(self.window@ =~= old(self).window@.drop_first().push(line));
            oldest
        } else {
            self.window.push_back(line);
            None
        }
    }
}


/// The number of lines shown of `len` lines when the last `n` are held back.
pub open spec fn kept(len: nat, n: nat) -> nat {
    if len > n {
        (len - n) as nat
    } else {
        0
    }
}

/// Taking the first `n` lines shows exactly the first `n` lines of the
/// input, or all of them where there are fewer.
pub proof fn lemma_first_lines(n: nat, lines: Seq<String>)
    ensures
        select_run(first_lines(n), lines).1 == lines.take(
            if lines.len() < n {
                lines.len() as int
            } else {
                n as int
            },
        ),
        select_run(first_lines(n), lines).0.taken == if lines.len() < n {
            lines.len()
        } else {
            n
        },
        !select_run(first_lines(n), lines).0.skip_last,
        select_run(first_lines(n), lines).0.limit == n,
    decreases lines.len(),
{
    if lines.len() > 0 {
        let pre = lines.drop_last();
        lemma_first_lines(n, pre);
        let m = if pre.len() < n { pre.len() as int } else { n as int };
        assert(pre.take(m) =~= lines.take(m));
        if pre.len() < n {
            assert(lines.take(m).push(lines.last()) =~= lines.take(lines.len() as int));
        }
    }
}

/// Holding back the last `n` lines (`n > 0`) shows every line of the input
/// but its last `n`, in order, and holds back exactly those last lines.
pub proof fn lemma_all_but_last(n: nat, lines: Seq<String>)
    requires
        n > 0,
    ensures
        select_run(all_but_last(n), lines).1 == lines.take(kept(lines.len(), n) as int),
        select_run(all_but_last(n), lines).0.window == lines.skip(kept(lines.len(), n) as int),
        select_run(all_but_last(n), lines).0.skip_last,
        select_run(all_but_last(n), lines).0.limit == n,
    decreases lines.len(),
{
    if lines.len() == 0 {
        assert(lines.skip(0) =~= seq![]);
        assert(lines.take(0) =~= seq![]);
    } else {
        let pre = lines.drop_last();
        lemma_all_but_last(n, pre);
        let k = kept(pre.len(), n) as int;
        let (s1, out) = select_run(all_but_last(n), pre);
        assert(pre.take(k) =~= lines.take(k));
        if s1.window.len() == n {
            assert(k + 1 == kept(lines.len(), n));
            assert(out.push(s1.window[0]) =~= lines.take(k + 1));
            assert(s1.window.drop_first().push(lines.last()) =~= lines.skip(k + 1));
        } else {
            assert(k == 0);
            assert(kept(lines.len(), n) == 0);
            assert(s1.window.push(lines.last()) =~= lines.skip(0));
        }
    }
}


/// The text that `String::from_utf8_lossy` makes of `bytes`: their UTF-8
/// decoding, with each invalid sequence replaced by U+FFFD.
pub uninterp spec fn utf8_lossy(bytes: Seq<u8>) -> Seq<char>;

/// Decodes bytes as UTF-8, replacing what is not.
/// Trusted: `String::from_utf8_lossy` gives `utf8_lossy` of the bytes, a
/// function of the bytes alone, and on valid UTF-8 gives their decoding.
/// How invalid sequences are replaced is not stated beyond that name.
#[verifier::external_body]
fn decode_lossy(bytes: &[u8]) -> (s: String)
    ensures
        s@ == utf8_lossy(bytes@),
        valid_utf8(bytes@) ==> s@ == decode_utf8(bytes@),
{
    String::from_utf8_lossy(bytes).into_owned()
}

/// The text shown for `--bytes num_bytes`: the first `num_bytes` of the
/// bytes read (all of them where there are fewer), decoded as UTF-8 with
/// invalid sequences replaced.
pub fn first_bytes_text(bytes: &[u8], num_bytes: usize) -> (s: String)
    ensures
        ({
            let taken = bytes@.take(if bytes@.len() < num_bytes { bytes@.len() as int } else { num_bytes as int });
            &&& s@ == utf8_lossy(taken)
            &&& valid_utf8(taken) ==> s@ == decode_utf8(taken)
        }),
{
    let k = if bytes.len() < num_bytes {
        bytes.len()
    } else {
        num_bytes
    };
    let (head, _) = bytes.split_at(k);
    assert(head@ =~= bytes@.take(k as int));
    decode_lossy(head)
}


/// Bytes win over lines; otherwise a line count of zero or more shows that
/// many first lines, and every negative line count `-k` shows all lines but
/// the last `k`. Read through the line selector: for any input, the lines
/// shown are its first `n` lines, or all of them but its last `k`.
pub proof fn lemma_selection(c: Config, lines: Seq<String>)
    ensures
        c.num_bytes matches Some(b) ==> selection_of(c) == Selection::Bytes(b),
        c.num_bytes is None && c.num_lines >= 0 ==> selection_of(c) == Selection::FirstLines(
            c.num_lines as usize,
        ),
        c.num_bytes is None && c.num_lines < 0 ==> (selection_of(c) matches Selection::AllButLastLines(
            k,
        ) && k + c.num_lines == 0),
        c.num_bytes is None && c.num_lines >= 0 ==> select_run(
            first_lines(c.num_lines as nat),
            lines,
        ).1 == lines.take(
            if lines.len() < c.num_lines {
                lines.len() as int
            } else {
                c.num_lines as int
            },
        ),
        c.num_bytes is None && c.num_lines < 0 ==> select_run(
            all_but_last((-c.num_lines) as nat),
            lines,
        ).1 == lines.take(
            if lines.len() + c.num_lines > 0 {
                lines.len() + c.num_lines
            } else {
                0
            },
        ),
{
    if c.num_bytes is None {
        if c.num_lines >= 0 {
            lemma_first_lines(c.num_lines as nat, lines);
        } else {
            lemma_all_but_last((-c.num_lines) as nat, lines);
        }
    }
}

} // verus!
