use cmdtools::headr_old::{get_args, parse_positive_int};

#[test]
fn test_parse_positive_int() {
    // 3 is a positive integer
    let res = parse_positive_int("3");
    assert!(res.is_ok());
    assert_eq!(res.unwrap(), 3);

    // text that is no number is an error
    let res = parse_positive_int("abc");
    assert!(res.is_err());
    assert_eq!(res.unwrap_err().to_string(), "abc".to_string());

    // so is 0
    let res = parse_positive_int("0");
    assert!(res.is_err());
    assert_eq!(res.unwrap_err().to_string(), "0".to_string());
}

#[test]
fn parse_positive_int_edges() {
    assert_eq!(parse_positive_int("+7"), Ok(7));
    assert_eq!(parse_positive_int("-7"), Err("-7".to_string()));
    assert_eq!(parse_positive_int(""), Err("".to_string()));
    assert_eq!(parse_positive_int("+"), Err("+".to_string()));
    assert_eq!(parse_positive_int(" 7"), Err(" 7".to_string()));
    assert_eq!(parse_positive_int("007"), Ok(7));
    let max = usize::MAX.to_string();
    assert_eq!(parse_positive_int(&max), Ok(usize::MAX));
    let over = format!("{}0", usize::MAX);
    assert_eq!(parse_positive_int(&over), Err(over.clone()));
}

#[test]
fn headr_old_get_args_defaults() {
    let c = get_args(vec![], None, None).unwrap();
    assert_eq!(c.files, vec!["-".to_string()]);
    assert_eq!(c.num_lines, 10);
    assert_eq!(c.num_bytes, None);
}

#[test]
fn headr_old_get_args_values() {
    let c = get_args(vec!["a".to_string()], Some("3".to_string()), None).unwrap();
    assert_eq!(c.files, vec!["a".to_string()]);
    assert_eq!(c.num_lines, 3);
    let c = get_args(vec![], None, Some("5".to_string())).unwrap();
    assert_eq!(c.num_lines, 10);
    assert_eq!(c.num_bytes, Some(5));
}

#[test]
fn headr_old_get_args_errors() {
    let e = get_args(vec![], Some("3".to_string()), Some("5".to_string())).unwrap_err();
    assert_eq!(e, "Cannot specify both --lines and --bytes");
    let e = get_args(vec![], Some("x".to_string()), None).unwrap_err();
    assert_eq!(e, "x");
    let e = get_args(vec![], None, Some("0".to_string())).unwrap_err();
    assert_eq!(e, "0");
}
