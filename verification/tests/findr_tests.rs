use cmdtools::findr::{compile_name, get_args, name_patterns, EntryType};

fn strings(v: &[&str]) -> Vec<String> {
    v.iter().map(|s| s.to_string()).collect()
}

#[test]
fn entry_type_names() {
    assert_eq!(EntryType::from_name("d"), Some(EntryType::Dir));
    assert_eq!(EntryType::from_name("f"), Some(EntryType::File));
    assert_eq!(EntryType::from_name("l"), Some(EntryType::Link));
    assert_eq!(EntryType::from_name("x"), None);
    assert_eq!(EntryType::from_name("dd"), None);
    assert_eq!(EntryType::from_name(""), None);
}

#[test]
fn compiled_name_patterns() {
    let re = compile_name(".*[.]csv$").unwrap();
    assert_eq!(re.as_str(), ".*[.]csv$");
    assert!(re.is_match("a.csv"));
    assert!(compile_name("foo(bar").is_err());
    assert!(compile_name(r"\w{1000}").is_err());
}

#[test]
fn findr_get_args_defaults() {
    let a = get_args(vec![], vec![], vec![]).unwrap();
    assert_eq!(a.path, strings(&["."]));
    assert!(a.entry_types.is_empty());
    assert!(a.names.is_empty());
}

#[test]
fn findr_get_args_values() {
    let names = vec![compile_name(".*[.]csv$").unwrap(), compile_name("^x").unwrap()];
    let a = get_args(strings(&["a", "b"]), vec![EntryType::File, EntryType::Link], names).unwrap();
    assert_eq!(a.path, strings(&["a", "b"]));
    assert_eq!(a.entry_types, vec![EntryType::File, EntryType::Link]);
    assert_eq!(a.names.len(), 2);
    assert_eq!(a.names[0].as_str(), ".*[.]csv$");
    assert_eq!(a.names[1].as_str(), "^x");
}

#[test]
fn findr_name_patterns_in_order() {
    let names = vec![compile_name("b+").unwrap(), compile_name("^a").unwrap()];
    let a = get_args(vec![], vec![], names).unwrap();
    assert_eq!(name_patterns(&a), strings(&["b+", "^a"]));
}
