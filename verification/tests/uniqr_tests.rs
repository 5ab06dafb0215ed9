use cmdtools::uniqr::{get_args, group_text, Grouper};

fn groups(lines: &[&str]) -> Vec<(String, usize)> {
    let mut g = Grouper::new();
    let mut out = Vec::new();
    for l in lines {
        if let Some(x) = g.push(l.to_string()) {
            out.push(x);
        }
    }
    if let Some(x) = g.finish() {
        out.push(x);
    }
    out
}

fn pair(s: &str, n: usize) -> (String, usize) {
    (s.to_string(), n)
}

#[test]
fn uniqr_groups_runs() {
    assert_eq!(
        groups(&["a\n", "a \n", "b\n", "a\n", "a"]),
        vec![pair("a\n", 2), pair("b\n", 1), pair("a\n", 2)]
    );
    assert!(groups(&[]).is_empty());
    assert_eq!(groups(&["x"]), vec![pair("x", 1)]);
}

#[test]
fn uniqr_leading_blank_lines() {
    // blank lines at the start join the empty line the grouping starts from
    assert_eq!(groups(&["\n", "\n", "a\n"]), vec![pair("", 2), pair("a\n", 1)]);
}

#[test]
fn uniqr_group_text() {
    assert_eq!(group_text("a\n", 2, false), "a\n");
    assert_eq!(group_text("a", 2, false), "a\n");
    assert_eq!(group_text("a\n", 2, true), "      2 a\n");
    assert_eq!(group_text("", 12345678, true), "12345678 \n");
}

#[test]
fn uniqr_get_args() {
    let a = get_args(None, None, true).unwrap();
    assert_eq!(a.in_file, "-");
    assert_eq!(a.out_file, None);
    assert!(a.count);
    let a = get_args(Some("in".to_string()), Some("out".to_string()), false).unwrap();
    assert_eq!(a.in_file, "in");
    assert_eq!(a.out_file, Some("out".to_string()));
}

#[test]
fn uniqr_count_is_readable() {
    let mut g = Grouper::new();
    assert_eq!(g.count(), 0);
    g.push("a".to_string());
    g.push("a".to_string());
    assert_eq!(g.count(), 2);
}
