//! `wc`: counts lines, words, bytes and characters, and lays the counts out
//! in columns.
use vstd::prelude::*;
use vstd::utf8::{encode_utf8, valid_utf8, decode_utf8};
use vstd::std_specs::convert::FromSpecImpl;
use crate::text::{
    is_ws, is_whitespace, decimal, pad_left, decimal_len, right_align, push_str, push_char,
    lemma_decimal_len_monotone, lemma_pad_left,
    string_of,
};

verus! {

/// The command line as given: the files, and which counts were asked for.
#[derive(Debug)]
pub struct Args {
    pub files: Vec<String>,
    pub lines: bool,
    pub words: bool,
    pub bytes: bool,
    pub chars: bool,
}

/// What to count and show, and for which files.
#[derive(Debug)]
pub struct Config {
    pub files: Vec<String>,
    pub lines: bool,
    pub words: bool,
    pub bytes: bool,
    pub chars: bool,
}

/// With no count asked for, lines, words and bytes are shown.
pub open spec fn config_of(args: Args) -> Config {
    let any = args.lines || args.words || args.bytes || args.chars;
    Config {
        files: args.files,
        lines: if any { args.lines } else { true },
        words: if any { args.words } else { true },
        bytes: if any { args.bytes } else { true },
        chars: args.chars,
    }
}

impl From<Args> for Config {
    fn from(args: Args) -> (c: Config) {
        let any = args.lines || args.words || args.bytes || args.chars;
        Config {
            files: args.files,
            lines: if any { args.lines } else { true },
            words: if any { args.words } else { true },
            bytes: if any { args.bytes } else { true },
            chars: args.chars,
        }
    }
}

impl FromSpecImpl<Args> for Config {
    open spec fn obeys_from_spec() -> bool {
        true
    }

    open spec fn from_spec(args: Args) -> Config {
        config_of(args)
    }
}

/// The message for `--bytes` together with `--chars`.
pub open spec fn bytes_chars_conflict() -> Seq<char> {
    "the argument '--bytes' cannot be used with '--chars'"@
}

/// Builds the configuration from the command line: `--bytes` and `--chars`
/// exclude each other, and no file means standard input (`-`).
///
/// The program has clap apply the same rules to its command line first, so
/// there the error text, which error comes first and the exit status are
/// clap's; the messages stated here are what this function returns.
pub fn get_args(args: Args) -> (r: Result<Config, String>)
    ensures
        r is Err <==> args.bytes && args.chars,
        r matches Err(e) ==> e@ == bytes_chars_conflict(),
        r matches Ok(c) ==> {
            let expected = config_of(args);
            &&& c.lines == expected.lines
            &&& c.words == expected.words
            &&& c.bytes == expected.bytes
            &&& c.chars == expected.chars
            &&& args.files@.len() > 0 ==> c.files@ == args.files@
            &&& args.files@.len() == 0 ==> c.files@.len() == 1 && c.files@[0]@ == "-"@
        },
{
    if args.bytes && args.chars {
        let e = string_of("the argument '--bytes' cannot be used with '--chars'");
        return Err(e);
    }
    let mut args = args;
    if args.files.len() == 0 {
        args.files.push(string_of("-"));
    }
    Ok(Config::from(args))
}

/// The counts for one input.
#[derive(Debug, Clone, Copy, PartialEq, Eq, Structural)]
pub struct FileInfo {
    pub num_lines: usize,
    pub num_words: usize,
    pub num_bytes: usize,
    pub num_chars: usize,
}

/// The number of newline characters in `t`.
pub open spec fn newline_count(t: Seq<char>) -> nat
    decreases t.len(),
{
    if t.len() == 0 {
        0
    } else {
        newline_count(t.drop_last()) + if t.last() == '\n' {
            1nat
        } else {
            0nat
        }
    }
}

/// The number of lines of `t`: a last line without a newline counts too.
pub open spec fn line_count(t: Seq<char>) -> nat {
    newline_count(t) + if t.len() > 0 && t.last() != '\n' {
        1nat
    } else {
        0nat
    }
}

/// Whether a word starts at index `i` of `t`.
pub open spec fn word_starts_at(t: Seq<char>, i: int) -> bool {
    !is_ws(t[i]) && (i == 0 || is_ws(t[i - 1]))
}

/// The number of words of `t`: maximal runs of non-whitespace characters.
pub open spec fn word_count(t: Seq<char>) -> nat
    decreases t.len(),
{
    if t.len() == 0 {
        0
    } else {
        word_count(t.drop_last()) + if word_starts_at(t, t.len() - 1) {
            1nat
        } else {
            0nat
        }
    }
}

/// `info` holds the counts of the text `t`.
pub open spec fn counts_of(info: FileInfo, t: Seq<char>) -> bool {
    &&& info.num_lines == line_count(t)
    &&& info.num_words == word_count(t)
    &&& info.num_bytes == encode_utf8(t).len()
    &&& info.num_chars == t.len()
}

/// The UTF-8 encoding takes at least one byte per character.
proof fn lemma_encoded_len(t: Seq<char>)
    ensures
        t.len() <= encode_utf8(t).len(),
    decreases t.len(),
{
    if t.len() > 0 {
        lemma_encoded_len(t.drop_first());
    }
}

/// The message for input that is not UTF-8.
pub open spec fn not_utf8_message() -> Seq<char> {
    "stream did not contain valid UTF-8"@
}

/// The text that `bytes` encode, where they are UTF-8.
/// Trusted: `std::str::from_utf8` succeeds exactly on valid UTF-8 and then
/// gives a `str` made of the same bytes.
#[verifier::external_body]
fn str_from_utf8(bytes: &[u8]) -> (r: Option<&str>)
    ensures
        r is Some <==> valid_utf8(bytes@),
        r matches Some(s) ==> encode_utf8(s@) == bytes@,
{
    std::str::from_utf8(bytes).ok()
}

impl FileInfo {
    /// Counts the lines, words, bytes and characters of an input, which must
    /// be UTF-8.
    pub fn count(bytes: &[u8]) -> (r: Result<FileInfo, String>)
        ensures
            r is Ok <==> valid_utf8(bytes@),
            r matches Ok(info) ==> counts_of(info, decode_utf8(bytes@)) && info.num_bytes == bytes@.len(),
            r matches Err(e) ==> e@ == not_utf8_message(),
    {
        let ghost len = bytes.len();
        match str_from_utf8(bytes) {
            Some(text) => {
                proof {
                    vstd::utf8::encode_utf8_decode_utf8(text@);
                }
                Ok(Self::count_text(text))
            },
            None => Err(string_of("stream did not contain valid UTF-8")),
        }
    }

    /// Counts the lines, words, bytes and characters of `text`.
    pub fn count_text(text: &str) -> (info: FileInfo)
        requires
            encode_utf8(text@).len() <= usize::MAX,
        ensures
            counts_of(info, text@),
    {
        proof {
            lemma_encoded_len(text@);
        }
        let num_bytes = text.len();
        let mut newlines: usize = 0;
        let mut words: usize = 0;
        let mut num_chars: usize = 0;
        let mut last_newline = false;
        let mut prev_ws = true;
        for c in it: text.chars()
            invariant
                text@.len() <= usize::MAX,
                it.seq() == text@,
                num_chars == it.index(),
                newlines == newline_count(text@.take(it.index())),
                words == word_count(text@.take(it.index())),
                newlines + (if num_chars > 0 && !last_newline { 1int } else { 0int }) <= num_chars,
                words <= num_chars,
                num_chars > 0 ==> last_newline == (text@[num_chars - 1] == '\n'),
                num_chars > 0 ==> prev_ws == is_ws(text@[num_chars - 1]),
                num_chars == 0 ==> prev_ws,
        {
            let ghost k = it.index();
            let ghost pre = text@.take(k + 1);
            assert(pre.drop_last() =~= text@.take(k));
            assert(pre.last() == c);
            let ws = is_whitespace(c);
            if c == '\n' {
                newlines = newlines + 1;
            }
            if !ws && prev_ws {
                words = words + 1;
            }
            assert(word_starts_at(pre, k) == (!ws && prev_ws));
            last_newline = c == '\n';
            prev_ws = ws;
            num_chars = num_chars + 1;
        }
        assert(text@.take(text@.len() as int) =~= text@);
        let num_lines = if num_chars > 0 && !last_newline {
            newlines + 1
        } else {
            newlines
        };
        FileInfo { num_lines, num_words: words, num_bytes, num_chars }
    }
}


/// The `k`-th count of `info`: lines, words, bytes, characters for `k` = 0..3.
pub open spec fn field(info: FileInfo, k: int) -> nat {
    if k == 0 {
        info.num_lines as nat
    } else if k == 1 {
        info.num_words as nat
    } else if k == 2 {
        info.num_bytes as nat
    } else {
        info.num_chars as nat
    }
}

/// The sum of the `k`-th counts of `infos`.
pub open spec fn total(infos: Seq<FileInfo>, k: int) -> nat
    decreases infos.len(),
{
    if infos.len() == 0 {
        0
    } else {
        total(infos.drop_last(), k) + field(infos.last(), k)
    }
}

/// Each of the four sums of `infos` fits in `usize`.
pub open spec fn totals_fit(infos: Seq<FileInfo>) -> bool {
    forall|k: int| 0 <= k < 4 ==> #[trigger] total(infos, k) <= usize::MAX
}

/// The largest `k`-th count of `infos` (0 for none).
pub open spec fn max_field(infos: Seq<FileInfo>, k: int) -> nat
    decreases infos.len(),
{
    if infos.len() == 0 {
        0
    } else {
        let m = max_field(infos.drop_last(), k);
        let f = field(infos.last(), k);
        if m < f {
            f
        } else {
            m
        }
    }
}

/// A sum over a prefix is at most the sum over the whole.
proof fn lemma_total_prefix(infos: Seq<FileInfo>, i: int, k: int)
    requires
        0 <= i <= infos.len(),
    ensures
        total(infos.take(i), k) <= total(infos, k),
    decreases infos.len(),
{
    if i < infos.len() {
        lemma_total_prefix(infos.drop_last(), i, k);
        assert(infos.drop_last().take(i) =~= infos.take(i));
    } else {
        assert(infos.take(i) =~= infos);
    }
}

/// One step of a sum over a prefix.
proof fn lemma_total_step(infos: Seq<FileInfo>, i: int, k: int)
    requires
        0 <= i < infos.len(),
    ensures
        total(infos.take(i + 1), k) == total(infos.take(i), k) + field(infos[i], k),
        max_field(infos.take(i + 1), k) == if max_field(infos.take(i), k) < field(infos[i], k) {
            field(infos[i], k)
        } else {
            max_field(infos.take(i), k)
        },
{
    assert(infos.take(i + 1).drop_last() =~= infos.take(i));
}

impl FileInfo {
    /// The counts of several inputs added up, count by count.
    pub fn sum(infos: &[FileInfo]) -> (r: FileInfo)
        requires
            totals_fit(infos@),
        ensures
            forall|k: int| 0 <= k < 4 ==> #[trigger] field(r, k) == total(infos@, k),
    {
        let mut acc = FileInfo { num_lines: 0, num_words: 0, num_bytes: 0, num_chars: 0 };
        let mut i: usize = 0;
        while i < infos.len()
            invariant
                i <= infos@.len(),
                totals_fit(infos@),
                forall|k: int| 0 <= k < 4 ==> #[trigger] field(acc, k) == total(infos@.take(i as int), k),
            decreases infos.len() - i,
        {
            let info = infos[i];
            proof {
                assert forall|k: int| 0 <= k < 4 implies #[trigger] total(infos@.take(i + 1), k) <= usize::MAX by {
                    lemma_total_prefix(infos@, i + 1, k);
                }
                assert forall|k: int| 0 <= k < 4 implies #[trigger] total(infos@.take(i + 1), k) == total(infos@.take(i as int), k) + field(info, k) by {
                    lemma_total_step(infos@, i as int, k);
                }
                assert(total(infos@.take(i + 1), 0) <= usize::MAX);
                assert(total(infos@.take(i + 1), 1) <= usize::MAX);
                assert(total(infos@.take(i + 1), 2) <= usize::MAX);
                assert(total(infos@.take(i + 1), 3) <= usize::MAX);
                assert(field(acc, 0) + field(info, 0) == total(infos@.take(i + 1), 0));
                assert(field(acc, 1) + field(info, 1) == total(infos@.take(i + 1), 1));
                assert(field(acc, 2) + field(info, 2) == total(infos@.take(i + 1), 2));
                assert(field(acc, 3) + field(info, 3) == total(infos@.take(i + 1), 3));
            }
            acc = FileInfo {
                num_lines: acc.num_lines + info.num_lines,
                num_words: acc.num_words + info.num_words,
                num_bytes: acc.num_bytes + info.num_bytes,
                num_chars: acc.num_chars + info.num_chars,
            };
            i = i + 1;
        }
        assert(infos@.take(i as int) =~= infos@);
        acc
    }

    /// Whether the counts of `infos` can be added up without overflow.
    pub fn totals_fit(infos: &[FileInfo]) -> (b: bool)
        ensures
            b == totals_fit(infos@),
    {
        let mut acc = [0usize, 0usize, 0usize, 0usize];
        let mut i: usize = 0;
        while i < infos.len()
            invariant
                i <= infos@.len(),
                forall|k: int| 0 <= k < 4 ==> #[trigger] acc@[k] == total(infos@.take(i as int), k),
            decreases infos.len() - i,
        {
            let info = infos[i];
            let fs = [info.num_lines, info.num_words, info.num_bytes, info.num_chars];
            let mut k: usize = 0;
            while k < 4
                invariant
                    i < infos@.len(),
                    info == infos@[i as int],
                    fs@ == seq![info.num_lines, info.num_words, info.num_bytes, info.num_chars],
                    k <= 4,
                    forall|j: int| 0 <= j < k ==> #[trigger] acc@[j] == total(infos@.take(i + 1), j),
                    forall|j: int| k <= j < 4 ==> #[trigger] acc@[j] == total(infos@.take(i as int), j),
                decreases 4 - k,
            {
                proof {
                    lemma_total_step(infos@, i as int, k as int);
                    assert(fs@[k as int] == field(info, k as int));
                }
                if acc[k] > usize::MAX - fs[k] {
                    proof {
                        lemma_total_prefix(infos@, i + 1, k as int);
                    }
                    assert(total(infos@, k as int) > usize::MAX);
                    return false;
                }
                acc[k] = acc[k] + fs[k];
                k = k + 1;
            }
            i = i + 1;
        }
        assert(infos@.take(i as int) =~= infos@);
        assert forall|k: int| 0 <= k < 4 implies #[trigger] total(infos@, k) <= usize::MAX by {
            assert(acc@[k] == total(infos@, k));
        }
        true
    }
}

/// The total row: the counts added up, where there is more than one input.
pub fn calc_total(file_infos: &[FileInfo]) -> (r: Option<FileInfo>)
    requires
        file_infos@.len() > 1 ==> totals_fit(file_infos@),
    ensures
        r is Some <==> file_infos@.len() > 1,
        r matches Some(t) ==> forall|k: int| 0 <= k < 4 ==> #[trigger] field(t, k) == total(file_infos@, k),
{
    if file_infos.len() > 1 {
        Some(FileInfo::sum(file_infos))
    } else {
        None
    }
}

/// The width of the `k`-th column: one more than the widest count, and 4 at
/// least.
pub open spec fn col_width(infos: Seq<FileInfo>, k: int) -> nat {
    let w = decimal(max_field(infos, k)).len() + 1;
    if w < 4 {
        4
    } else {
        w
    }
}

/// Whether the `k`-th count is shown.
pub open spec fn shown(config: Config, k: int) -> bool {
    if k == 0 {
        config.lines
    } else if k == 1 {
        config.words
    } else if k == 2 {
        config.bytes
    } else {
        config.chars
    }
}

/// The `k`-th cell of a row: the count right-aligned in its column, or
/// nothing where the count is not shown.
pub open spec fn cell(infos: Seq<FileInfo>, info: FileInfo, config: Config, k: int) -> Seq<char> {
    if shown(config, k) {
        pad_left(decimal(field(info, k)), col_width(infos, k))
    } else {
        seq![]
    }
}

/// The row for `info` and its file name; standard input (`-`) shows no name.
pub open spec fn row(infos: Seq<FileInfo>, info: FileInfo, config: Config, file: Seq<char>) -> Seq<char> {
    cell(infos, info, config, 0) + cell(infos, info, config, 1) + cell(infos, info, config, 2)
        + cell(infos, info, config, 3) + seq![' '] + if file == "-"@ {
        seq![]
    } else {
        file
    }
}

/// The width of column `k` for `infos`.
fn column_width(infos: &[FileInfo], k: usize) -> (w: usize)
    requires
        k < 4,
    ensures
        w == col_width(infos@, k as int),
{
    let mut m: usize = 0;
    let mut i: usize = 0;
    while i < infos.len()
        invariant
            i <= infos@.len(),
            k < 4,
            m == max_field(infos@.take(i as int), k as int),
        decreases infos.len() - i,
    {
        let info = infos[i];
        let f = if k == 0 {
            info.num_lines
        } else if k == 1 {
            info.num_words
        } else if k == 2 {
            info.num_bytes
        } else {
            info.num_chars
        };
        proof {
            lemma_total_step(infos@, i as int, k as int);
        }
        if m < f {
            m = f;
        }
        i = i + 1;
    }
    assert(infos@.take(i as int) =~= infos@);
    let w = decimal_len(m) + 1;
    if w < 4 {
        4
    } else {
        w
    }
}

/// Lays out the counts: one row per input, paired with the file names in
/// order, each shown count right-aligned in its column, then a space and the
/// file name.
pub fn show_info(file_infos: &[FileInfo], config: &Config) -> (rows: Vec<String>)
    ensures
        rows@.len() == if file_infos@.len() < config.files@.len() {
            file_infos@.len()
        } else {
            config.files@.len()
        },
        forall|i: int| 0 <= i < rows@.len() ==> #[trigger] rows@[i]@ == row(
            file_infos@,
            file_infos@[i],
            *config,
            config.files@[i]@,
        ),
{
    let widths = [
        column_width(file_infos, 0),
        column_width(file_infos, 1),
        column_width(file_infos, 2),
        column_width(file_infos, 3),
    ];
    let shows = [config.lines, config.words, config.bytes, config.chars];
    let dash = string_of("-");
    let n = if file_infos.len() < config.files.len() {
        file_infos.len()
    } else {
        config.files.len()
    };
    let mut rows: Vec<String> = Vec::new();
    let mut i: usize = 0;
    while i < n
        invariant
            n <= file_infos@.len(),
            n <= config.files@.len(),
            n == if file_infos@.len() < config.files@.len() {
                file_infos@.len()
            } else {
                config.files@.len()
            },
            i <= n,
            rows@.len() == i,
            dash@ == "-"@,
            forall|k: int| 0 <= k < 4 ==> #[trigger] widths@[k] == col_width(file_infos@, k),
            forall|k: int| 0 <= k < 4 ==> #[trigger] shows@[k] == shown(*config, k),
            forall|j: int| 0 <= j < i ==> #[trigger] rows@[j]@ == row(
                file_infos@,
                file_infos@[j],
                *config,
                config.files@[j]@,
            ),
        decreases n - i,
    {
        let info = file_infos[i];
        let fs = [info.num_lines, info.num_words, info.num_bytes, info.num_chars];
        let mut line = String::new();
        let mut k: usize = 0;
        while k < 4
            invariant
                k <= 4,
                i < file_infos@.len(),
                info == file_infos@[i as int],
                fs@ == seq![info.num_lines, info.num_words, info.num_bytes, info.num_chars],
                forall|j: int| 0 <= j < 4 ==> #[trigger] widths@[j] == col_width(file_infos@, j),
                forall|j: int| 0 <= j < 4 ==> #[trigger] shows@[j] == shown(*config, j),
                line@ == cells_upto(file_infos@, info, *config, k as int),
            decreases 4 - k,
        {
            assert(fs@[k as int] == field(info, k as int));
            if shows[k] {
                let cell_text = right_align(fs[k], widths[k]);
                push_str(&mut line, cell_text.as_str());
            }
            k = k + 1;
        }
        assert(line@ == cell(file_infos@, info, *config, 0) + cell(file_infos@, info, *config, 1)
            + cell(file_infos@, info, *config, 2) + cell(file_infos@, info, *config, 3)) by {
            reveal_with_fuel(cells_upto, 5);
            assert(cells_upto(file_infos@, info, *config, 1) =~= cell(file_infos@, info, *config, 0));
        }
        push_char(&mut line, ' ');
        let file = &config.files[i];
        if !(*file == dash) {
            push_str(&mut line, file.as_str());
        }
        assert(line@ =~= row(file_infos@, info, *config, config.files@[i as int]@));
        rows.push(line);
        i = i + 1;
    }
    rows
}

/// The first `k` cells of a row.
pub open spec fn cells_upto(infos: Seq<FileInfo>, info: FileInfo, config: Config, k: int) -> Seq<char>
    decreases k,
{
    if k <= 0 {
        seq![]
    } else {
        cells_upto(infos, info, config, k - 1) + cell(infos, info, config, k - 1)
    }
}


proof fn lemma_newlines_concat(a: Seq<char>, b: Seq<char>)
    ensures
        newline_count(a + b) == newline_count(a) + newline_count(b),
    decreases b.len(),
{
    if b.len() == 0 {
        assert(a + b =~= a);
    } else {
        lemma_newlines_concat(a, b.drop_last());
        assert((a + b).drop_last() =~= a + b.drop_last());
    }
}

proof fn lemma_words_concat(a: Seq<char>, b: Seq<char>)
    requires
        a.len() == 0 || is_ws(a.last()),
    ensures
        word_count(a + b) == word_count(a) + word_count(b),
    decreases b.len(),
{
    if b.len() == 0 {
        assert(a + b =~= a);
    } else {
        lemma_words_concat(a, b.drop_last());
        assert((a + b).drop_last() =~= a + b.drop_last());
        let n = (a + b).len() - 1;
        assert((a + b)[n] == b[b.len() - 1]);
        if b.len() >= 2 {
            assert((a + b)[n - 1] == b[b.len() - 2]);
        } else if a.len() > 0 {
            assert((a + b)[n - 1] == a.last());
        }
        assert(word_starts_at(a + b, n) == word_starts_at(b, b.len() - 1));
    }
}

proof fn lemma_encode_concat(a: Seq<char>, b: Seq<char>)
    ensures
        encode_utf8(a + b) == encode_utf8(a) + encode_utf8(b),
    decreases a.len(),
{
    if a.len() == 0 {
        assert(a + b =~= b);
        assert(encode_utf8(a) + encode_utf8(b) =~= encode_utf8(b));
    } else {
        lemma_encode_concat(a.drop_first(), b);
        assert((a + b).drop_first() =~= a.drop_first() + b);
        assert((a + b)[0] == a[0]);
        assert(encode_utf8(a + b) =~= encode_utf8(a) + encode_utf8(b));
    }
}

/// Counting is additive over whole lines: the counts of a text made of a
/// part that ends a line (or is empty) followed by another part are the sums
/// of the counts of the two parts. So counting line by line, or file by
/// file for the total, gives the counts of the whole.
pub proof fn lemma_counts_concat(a: Seq<char>, b: Seq<char>)
    requires
        a.len() == 0 || a.last() == '\n',
    ensures
        line_count(a + b) == line_count(a) + line_count(b),
        word_count(a + b) == word_count(a) + word_count(b),
        encode_utf8(a + b).len() == encode_utf8(a).len() + encode_utf8(b).len(),
        (a + b).len() == a.len() + b.len(),
{
    lemma_newlines_concat(a, b);
    lemma_words_concat(a, b);
    lemma_encode_concat(a, b);
    if b.len() > 0 {
        assert((a + b).last() == b.last());
    } else {
        assert(a + b =~= a);
    }
}


/// Taking one input out of a sum takes its count out.
proof fn lemma_total_remove(s: Seq<FileInfo>, j: int, k: int)
    requires
        0 <= j < s.len(),
    ensures
        total(s, k) == total(s.remove(j), k) + field(s[j], k),
    decreases s.len(),
{
    if j == s.len() - 1 {
        assert(s.remove(j) =~= s.drop_last());
    } else {
        lemma_total_remove(s.drop_last(), j, k);
        assert(s.remove(j).drop_last() =~= s.drop_last().remove(j));
        assert(s.remove(j).last() == s.last());
    }
}

/// The totals do not depend on the order of the inputs: two lists holding
/// the same counts, each as often, have the same sums.
pub proof fn lemma_totals_order_free(xs: Seq<FileInfo>, ys: Seq<FileInfo>)
    requires
        xs.to_multiset() == ys.to_multiset(),
    ensures
        forall|k: int| #[trigger] total(xs, k) == total(ys, k),
    decreases xs.len(),
{
    broadcast use vstd::seq_lib::group_to_multiset_ensures;

    if xs.len() == 0 {
        assert(ys.to_multiset().len() == 0);
        assert(ys.len() == 0);
    } else {
        let x = xs.last();
        let rest = xs.drop_last();
        assert(rest.push(x) =~= xs);
        assert(xs.to_multiset() =~= rest.to_multiset().insert(x));
        assert(ys.to_multiset().count(x) > 0);
        assert(ys.contains(x));
        let j = choose|j: int| 0 <= j < ys.len() && ys[j] == x;
        assert(ys.remove(j).to_multiset() =~= ys.to_multiset().remove(x));
        assert(rest.to_multiset() =~= ys.remove(j).to_multiset());
        lemma_totals_order_free(rest, ys.remove(j));
        assert forall|k: int| #[trigger] total(xs, k) == total(ys, k) by {
            lemma_total_remove(ys, j, k);
            assert(total(xs, k) == total(rest, k) + field(x, k));
        }
    }
}


/// The total row's counts: the sums of `infos`, count by count.
pub open spec fn total_info(infos: Seq<FileInfo>) -> FileInfo {
    FileInfo {
        num_lines: total(infos, 0) as usize,
        num_words: total(infos, 1) as usize,
        num_bytes: total(infos, 2) as usize,
        num_chars: total(infos, 3) as usize,
    }
}

/// The row of totals shown after the rows of several inputs: the summed
/// counts, laid out in columns as wide as they need, and named `total`.
/// With one input or none there is no such row.
pub fn total_rows(file_infos: &[FileInfo], config: &Config) -> (rows: Vec<String>)
    requires
        file_infos@.len() > 1 ==> totals_fit(file_infos@),
    ensures
        rows@.len() == if file_infos@.len() > 1 {
            1int
        } else {
            0int
        },
        rows@.len() == 1 ==> rows@[0]@ == row(
            seq![total_info(file_infos@)],
            total_info(file_infos@),
            *config,
            "total"@,
        ),
{
    match calc_total(file_infos) {
        Some(t) => {
            assert(t == total_info(file_infos@)) by {
                assert(field(t, 0) == total(file_infos@, 0));
                assert(field(t, 1) == total(file_infos@, 1));
                assert(field(t, 2) == total(file_infos@, 2));
                assert(field(t, 3) == total(file_infos@, 3));
            }
            let mut files: Vec<String> = Vec::new();
            files.push(string_of("total"));
            let total_config = Config {
                files,
                lines: config.lines,
                words: config.words,
                bytes: config.bytes,
                chars: config.chars,
            };
            let totals = [t];
            assert(totals@ =~= seq![t]);
            let rows = show_info(&totals, &total_config);
            assert(rows@[0]@ == row(seq![t], t, total_config, "total"@));
            rows
        },
        None => Vec::new(),
    }
}


/// The largest count is at least every count.
proof fn lemma_max_field_bound(infos: Seq<FileInfo>, k: int, i: int)
    requires
        0 <= i < infos.len(),
    ensures
        field(infos[i], k) <= max_field(infos, k),
    decreases infos.len(),
{
    if i < infos.len() - 1 {
        lemma_max_field_bound(infos.drop_last(), k, i);
        assert(infos.drop_last()[i] == infos[i]);
    }
}

/// Every count fits its column with room to spare: each column is at least
/// 4 wide and wider than the digits of the count of every row in it, so each
/// cell holds the whole count at its right end and starts with a space, and
/// neighbouring cells never run together.
pub proof fn lemma_columns_fit(infos: Seq<FileInfo>, k: int, i: int)
    requires
        0 <= i < infos.len(),
    ensures
        col_width(infos, k) >= 4,
        col_width(infos, k) >= decimal(field(infos[i], k)).len() + 1,
        ({
            let digits = decimal(field(infos[i], k));
            let c = pad_left(digits, col_width(infos, k));
            &&& c.len() == col_width(infos, k)
            &&& c[0] == ' '
            &&& c.subrange(c.len() - digits.len(), c.len() as int) == digits
        }),
{
    lemma_max_field_bound(infos, k, i);
    lemma_decimal_len_monotone(field(infos[i], k), max_field(infos, k));
    lemma_pad_left(decimal(field(infos[i], k)), col_width(infos, k));
}

/// Each shown cell of a row is its count right-aligned in a column at least
/// one wider than that count's digits; a count not shown takes no room.
pub proof fn lemma_cells(infos: Seq<FileInfo>, config: Config, i: int, k: int)
    requires
        0 <= i < infos.len(),
        0 <= k < 4,
    ensures
        !shown(config, k) ==> cell(infos, infos[i], config, k).len() == 0,
        shown(config, k) ==> {
            let digits = decimal(field(infos[i], k));
            let c = cell(infos, infos[i], config, k);
            &&& c.len() >= digits.len() + 1
            &&& c[0] == ' '
            &&& c.subrange(c.len() - digits.len(), c.len() as int) == digits
        },
{
    lemma_columns_fit(infos, k, i);
}


/// Words are the runs of non-whitespace characters: a text with no
/// whitespace holds one word (none if empty), a text of whitespace only holds
/// none, and cutting a text at a whitespace character splits its words
/// between the two sides.
pub proof fn lemma_word_count(a: Seq<char>, c: char, b: Seq<char>)
    ensures
        (forall|i: int| 0 <= i < a.len() ==> !is_ws(#[trigger] a[i])) ==> word_count(a) == if a.len()
            > 0 {
            1nat
        } else {
            0nat
        },
        (forall|i: int| 0 <= i < a.len() ==> is_ws(#[trigger] a[i])) ==> word_count(a) == 0,
        is_ws(c) ==> word_count(a + seq![c] + b) == word_count(a) + word_count(b),
    decreases a.len(),
{
    if a.len() > 0 {
        lemma_word_count(a.drop_last(), c, seq![]);
        let p = a.drop_last();
        assert forall|i: int| 0 <= i < p.len() implies p[i] == a[i] by {}
        if a.len() >= 2 {
            assert(a[a.len() - 2] == p.last());
        }
    }
    if is_ws(c) {
        let ac = a + seq![c];
        lemma_word_count_ws_end(a, c);
        lemma_words_concat(ac, b);
        assert(ac.last() == c);
        assert(a + seq![c] + b =~= ac + b);
    }
}

/// A whitespace character added at the end starts no word.
proof fn lemma_word_count_ws_end(a: Seq<char>, c: char)
    requires
        is_ws(c),
    ensures
        word_count(a + seq![c]) == word_count(a),
{
    assert((a + seq![c]).drop_last() =~= a);
    assert((a + seq![c]).last() == c);
}

/// Lines end at newlines: a text without a newline is one line (none if
/// empty), a newline ends the current line or is a line of its own, and a
/// text cut after a newline splits its lines between the two sides.
pub proof fn lemma_line_count(a: Seq<char>, b: Seq<char>)
    ensures
        (forall|i: int| 0 <= i < a.len() ==> #[trigger] a[i] != '\n') ==> line_count(a) == if a.len()
            > 0 {
            1nat
        } else {
            0nat
        },
        line_count(a.push('\n')) == line_count(a) + if a.len() == 0 || a.last() == '\n' {
            1nat
        } else {
            0nat
        },
        line_count(a.push('\n') + b) == line_count(a.push('\n')) + line_count(b),
{
    lemma_no_newlines(a);
    assert(a.push('\n').drop_last() =~= a);
    lemma_counts_concat(a.push('\n'), b);
}

proof fn lemma_no_newlines(a: Seq<char>)
    ensures
        (forall|i: int| 0 <= i < a.len() ==> #[trigger] a[i] != '\n') ==> newline_count(a) == 0,
    decreases a.len(),
{
    if a.len() > 0 {
        lemma_no_newlines(a.drop_last());
        assert forall|i: int| 0 <= i < a.drop_last().len() implies a.drop_last()[i] == a[i] by {}
    }
}

} // verus!
