use cmdtools::wcr::{calc_total, get_args, show_info, total_rows, Args, Config, FileInfo};

#[test]
fn test_count() {
    let text = "I don't want the world. I just want your half.\r\n";
    let info = FileInfo::count(text.as_bytes());
    assert!(info.is_ok());
    let expected = FileInfo {
        num_lines: 1,
        num_words: 10,
        num_bytes: 48,
        num_chars: 48,
    };
    assert_eq!(info.unwrap(), expected);
}

fn info(l: usize, w: usize, b: usize, c: usize) -> FileInfo {
    FileInfo { num_lines: l, num_words: w, num_bytes: b, num_chars: c }
}

#[test]
fn count_text_cases() {
    assert_eq!(FileInfo::count_text(""), info(0, 0, 0, 0));
    assert_eq!(FileInfo::count_text("a"), info(1, 1, 1, 1));
    assert_eq!(FileInfo::count_text("a\n"), info(1, 1, 2, 2));
    assert_eq!(FileInfo::count_text("\n\n"), info(2, 0, 2, 2));
    assert_eq!(FileInfo::count_text("  two  words\nthree\tmore words"), info(2, 5, 29, 29));
    // multi-byte characters: bytes and characters differ
    assert_eq!(FileInfo::count_text("héllo wörld\n"), info(1, 2, 14, 12));
    // a no-break space separates words
    assert_eq!(FileInfo::count_text("a\u{a0}b"), info(1, 2, 4, 3));
}

#[test]
fn count_invalid_utf8() {
    let bytes = [b'a', 0xff, b'\n'];
    assert_eq!(
        FileInfo::count(&bytes),
        Err("stream did not contain valid UTF-8".to_string())
    );
}

#[test]
fn count_is_additive_over_lines() {
    let a = "one two\n";
    let b = "three\nfour five six";
    let whole = format!("{a}{b}");
    let x = FileInfo::count_text(a);
    let y = FileInfo::count_text(b);
    let total = FileInfo::sum(&[x, y]);
    assert_eq!(FileInfo::count_text(&whole), total);
}

fn args(lines: bool, words: bool, bytes: bool, chars: bool) -> Args {
    Args { files: vec![], lines, words, bytes, chars }
}

#[test]
fn wcr_get_args_defaults() {
    let c = get_args(args(false, false, false, false)).unwrap();
    assert_eq!(c.files, vec!["-".to_string()]);
    assert!(c.lines && c.words && c.bytes && !c.chars);
    let c = get_args(args(false, true, false, true)).unwrap();
    assert!(!c.lines && c.words && !c.bytes && c.chars);
}

#[test]
fn wcr_get_args_conflict() {
    let e = get_args(args(false, false, true, true)).err().unwrap();
    assert_eq!(e, "the argument '--bytes' cannot be used with '--chars'");
}

#[test]
fn config_from_args() {
    let c = Config::from(Args { files: vec!["f".to_string()], lines: false, words: false, bytes: false, chars: true });
    assert_eq!(c.files, vec!["f".to_string()]);
    assert!(!c.lines && !c.words && !c.bytes && c.chars);
}

#[test]
fn total_row() {
    assert_eq!(calc_total(&[]), None);
    assert_eq!(calc_total(&[info(1, 2, 3, 4)]), None);
    assert_eq!(
        calc_total(&[info(1, 2, 3, 4), info(10, 20, 30, 40), info(100, 200, 300, 400)]),
        Some(info(111, 222, 333, 444))
    );
}

#[test]
fn totals_fit_check() {
    assert!(FileInfo::totals_fit(&[info(1, 2, 3, 4), info(5, 6, 7, 8)]));
    assert!(!FileInfo::totals_fit(&[info(usize::MAX, 0, 0, 0), info(1, 0, 0, 0)]));
    assert!(FileInfo::totals_fit(&[info(usize::MAX, 0, 0, 0), info(0, 0, 0, 0)]));
}

fn config(files: &[&str], lines: bool, words: bool, bytes: bool, chars: bool) -> Config {
    Config { files: files.iter().map(|s| s.to_string()).collect(), lines, words, bytes, chars }
}

#[test]
fn show_info_layout() {
    let infos = [info(1, 10, 48, 48), info(12345, 2, 3, 4)];
    let rows = show_info(&infos, &config(&["-", "b.txt"], true, true, true, false));
    assert_eq!(rows, vec![
        "     1  10  48 ".to_string(),
        " 12345   2   3 b.txt".to_string(),
    ]);
    let rows = show_info(&infos, &config(&["a"], false, false, false, true));
    assert_eq!(rows, vec!["  48 a".to_string()]);
    let rows = show_info(&[info(111, 222, 333, 444)], &config(&["total"], true, true, true, false));
    assert_eq!(rows, vec![" 111 222 333 total".to_string()]);
}

#[test]
fn totals_do_not_depend_on_order() {
    let a = info(1, 2, 3, 4);
    let b = info(10, 0, 7, 7);
    let c = info(5, 5, 5, 5);
    let forward = FileInfo::sum(&[a, b, c]);
    assert_eq!(FileInfo::sum(&[c, a, b]), forward);
    assert_eq!(FileInfo::sum(&[b, c, a]), forward);
    assert_eq!(forward, info(16, 7, 15, 16));
}

#[test]
fn total_row_layout() {
    let infos = [info(1, 10, 48, 48), info(12345, 2, 3, 4)];
    let c = config(&["-", "b.txt"], true, true, true, false);
    assert_eq!(total_rows(&infos, &c), vec![" 12346  12  51 total".to_string()]);
    assert!(total_rows(&infos[..1], &c).is_empty());
    assert!(total_rows(&[], &c).is_empty());
}
