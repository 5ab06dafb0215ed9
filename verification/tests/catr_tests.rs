use cmdtools::catr::{format_line, get_args, Cat, Config};

fn config(n: bool, b: bool) -> Config {
    Config { files: vec![], number_lines: n, number_nonblank_lines: b }
}

#[test]
fn catr_get_args() {
    let c = get_args(vec![], true, false).unwrap();
    assert_eq!(c.files, vec!["-".to_string()]);
    assert!(c.number_lines && !c.number_nonblank_lines);
    let e = get_args(vec![], true, true).err().unwrap();
    assert_eq!(e, "the argument '--number' cannot be used with '--number-nonblank'");
}

#[test]
fn catr_plain_lines() {
    assert_eq!(format_line(&config(false, false), 0, "hello"), ("hello".to_string(), 0));
    assert_eq!(format_line(&config(false, false), 4, ""), ("".to_string(), 4));
}

#[test]
fn catr_number_all_lines() {
    let c = config(true, false);
    let mut n = 0;
    let mut out = Vec::new();
    for line in ["a", "", "b"] {
        let (s, m) = format_line(&c, n, line);
        out.push(s);
        n = m;
    }
    assert_eq!(out, vec!["     1\ta", "     2\t", "     3\tb"]);
    assert_eq!(n, 3);
}

#[test]
fn catr_number_nonblank_lines() {
    let c = config(false, true);
    let mut n = 0;
    let mut out = Vec::new();
    for line in ["a", "", "b"] {
        let (s, m) = format_line(&c, n, line);
        out.push(s);
        n = m;
    }
    assert_eq!(out, vec!["     1\ta", "", "     2\tb"]);
    assert_eq!(n, 2);
    assert_eq!(format_line(&c, 999999, "x").0, "1000000\tx");
}

#[test]
fn catr_numbering_carries_across_files() {
    let c = config(false, true);
    let mut printer = Cat::new(&c);
    let first_file = ["a", ""];
    let second_file = ["b", "c"];
    let mut out = Vec::new();
    for line in first_file.iter().chain(second_file.iter()) {
        out.push(printer.print_line(line));
    }
    assert_eq!(out, vec!["     1\ta", "", "     2\tb", "     3\tc"]);
    assert_eq!(printer.line_num(), 3);
}
