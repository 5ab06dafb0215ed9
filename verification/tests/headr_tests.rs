use cmdtools::headr::{first_bytes_text, get_args, header, Config, LineSelector, Selection};

fn feed(mut sel: LineSelector, lines: &[&str]) -> Vec<String> {
    let mut out = Vec::new();
    for l in lines {
        if !sel.wants_more() {
            break;
        }
        if let Some(s) = sel.push(l.to_string()) {
            out.push(s);
        }
    }
    out
}

#[test]
fn headr_get_args() {
    let c = get_args(vec![], None, None).unwrap();
    assert_eq!(c.files, vec!["-".to_string()]);
    assert_eq!(c.num_lines, 10);
    assert_eq!(c.num_bytes, None);
    let c = get_args(vec!["a".to_string()], Some(-3), None).unwrap();
    assert_eq!(c.num_lines, -3);
    let e = get_args(vec![], Some(2), Some(4)).err().unwrap();
    assert_eq!(e, "the argument '--lines <LINES>' cannot be used with '--bytes <BYTES>'");
}

#[test]
fn headr_selection() {
    let c = Config { files: vec![], num_lines: 10, num_bytes: Some(3) };
    assert_eq!(c.selection(), Selection::Bytes(3));
    let c = Config { files: vec![], num_lines: 4, num_bytes: None };
    assert_eq!(c.selection(), Selection::FirstLines(4));
    let c = Config { files: vec![], num_lines: -2, num_bytes: None };
    assert_eq!(c.selection(), Selection::AllButLastLines(2));
    let c = Config { files: vec![], num_lines: isize::MIN, num_bytes: None };
    assert_eq!(c.selection(), Selection::AllButLastLines(isize::MIN.unsigned_abs()));
}

#[test]
fn headr_header() {
    assert_eq!(header(0, "a.txt", 1), None);
    assert_eq!(header(0, "a.txt", 2), Some("==> a.txt <==".to_string()));
    assert_eq!(header(1, "b.txt", 2), Some("\n==> b.txt <==".to_string()));
}

#[test]
fn headr_first_lines() {
    let lines = ["1\n", "2\n", "3\n", "4\n"];
    assert_eq!(feed(LineSelector::first(2), &lines), vec!["1\n", "2\n"]);
    assert_eq!(feed(LineSelector::first(9), &lines), lines.to_vec());
    assert!(feed(LineSelector::first(0), &lines).is_empty());
}

#[test]
fn headr_all_but_last_lines() {
    let lines = ["1\n", "2\n", "3\n", "4\n"];
    assert_eq!(feed(LineSelector::all_but_last(1), &lines), vec!["1\n", "2\n", "3\n"]);
    assert_eq!(feed(LineSelector::all_but_last(3), &lines), vec!["1\n"]);
    assert!(feed(LineSelector::all_but_last(4), &lines).is_empty());
    assert!(feed(LineSelector::all_but_last(7), &lines).is_empty());
}

#[test]
fn headr_first_bytes() {
    assert_eq!(first_bytes_text(b"hello", 3), "hel");
    assert_eq!(first_bytes_text(b"hi", 10), "hi");
    assert_eq!(first_bytes_text(b"ab\xffcd", 4), "ab\u{fffd}c");
    // cutting a multi-byte character in half leaves a replacement character
    assert_eq!(first_bytes_text("é!".as_bytes(), 1), "\u{fffd}");
    assert_eq!(first_bytes_text(b"", 0), "");
}
