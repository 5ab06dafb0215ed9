use cmdtools::echor::{get_args, output};

#[test]
fn echor_joins_with_spaces() {
    let a = get_args(vec!["Hello".to_string(), "there".to_string()], false).unwrap();
    assert_eq!(output(&a), "Hello there\n");
    let a = get_args(vec!["Hello  there".to_string()], true).unwrap();
    assert_eq!(output(&a), "Hello  there");
}

#[test]
fn echor_requires_text() {
    let e = get_args(vec![], false).err().unwrap();
    assert_eq!(e, "the following required arguments were not provided: <TEXT>...");
}
