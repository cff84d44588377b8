use windows_tool::vdf::parse::parse_vdf_string;
use windows_tool::vdf::value::VdfMap;
use windows_tool::vdf::VdfValue;

#[test]
fn test_get_by_path() {
    let mut root = VdfValue::new_object();
    let mut nested = VdfValue::new_object();
    nested.insert("key", VdfValue::new_string("value")).unwrap();
    root.insert("nested", nested).unwrap();

    let path = ["nested", "key"];
    let result = root.get_by_path(&path);
    assert!(result.is_some());
    assert_eq!(result.unwrap().as_string(), Some("value"));
}

#[test]
fn test_path_exists() {
    let mut root = VdfValue::new_object();
    root.insert("key", VdfValue::new_string("value")).unwrap();

    assert!(root.path_exists(&["key"]));
    assert!(!root.path_exists(&["nonexistent"]));
}

#[test]
fn test_set_by_path() {
    let mut root = VdfValue::new_object();
    let mut nested = VdfValue::new_object();
    nested.insert("old_key", VdfValue::new_string("old_value")).unwrap();
    root.insert("nested", nested).unwrap();

    let path = ["nested", "new_key"];
    root.set_by_path(&path, VdfValue::new_string("new_value")).unwrap();

    let result = root.get_by_path(&path);
    assert!(result.is_some());
    assert_eq!(result.unwrap().as_string(), Some("new_value"));
}

#[test]
fn set_by_path_errors() {
    let mut root = VdfValue::new_object();
    root.insert("leaf", VdfValue::new_string("x")).unwrap();
    assert_eq!(root.set_by_path(&["missing", "k"], VdfValue::new_string("v")), Err("Path not found".to_string()));
    assert_eq!(
        root.set_by_path(&["leaf", "k"], VdfValue::new_string("v")),
        Err("Parent is not an object".to_string())
    );
    let mut s = VdfValue::new_string("x");
    assert_eq!(s.insert("k", VdfValue::new_string("v")), Err("Not an object".to_string()));
}

#[test]
fn insert_keeps_position_of_existing_key() {
    let mut root = VdfValue::new_object();
    root.insert("a", VdfValue::new_string("1")).unwrap();
    root.insert("b", VdfValue::new_string("2")).unwrap();
    root.insert("a", VdfValue::new_string("3")).unwrap();
    let es = root.as_object().unwrap();
    assert_eq!(es.len(), 2);
    let (k, v) = es.get_index(0);
    assert_eq!(k, "a");
    assert_eq!(v.as_string(), Some("3"));
    assert_eq!(root.get_value("b"), Some("2"));
}

#[test]
fn parse_and_write_back() {
    let text = "\"root\"\n{\n\t// comment\n\t\"a\"\t\t\"1\"\n\tb 2\n\t\"c\"\n\t{\n\t\t\"d\"\t\t\"x\\\"y\"\n\t}\n}\n";
    let v = parse_vdf_string(text).unwrap();
    assert_eq!(v.get_value_by_path(&["root", "a"]), Some("1"));
    assert_eq!(v.get_value_by_path(&["root", "b"]), Some("2"));
    assert_eq!(v.get_value_by_path(&["root", "c", "d"]), Some("x\"y"));
    let again = parse_vdf_string(&v.to_string()).unwrap();
    assert_eq!(again.get_value_by_path(&["root", "c", "d"]), Some("x\"y"));
    assert_eq!(again.to_string(), v.to_string());
}

#[test]
fn parse_errors() {
    assert_eq!(parse_vdf_string("\"a").unwrap_err(), "Unterminated string");
    assert_eq!(parse_vdf_string("@").unwrap_err(), "Unexpected character: '@' (0x40)");
    assert!(parse_vdf_string("").unwrap().as_object().unwrap().len() == 0);
}

#[test]
fn get_mut_by_path_changes_in_place() {
    let mut root = parse_vdf_string("\"a\" { \"b\" { \"c\" \"1\" } \"d\" \"2\" }").unwrap();
    match root.get_mut_by_path(&["a", "b", "c"]) {
        Some(n) => *n = VdfValue::new_string("9"),
        None => panic!("path should exist"),
    }
    assert_eq!(root.get_by_path(&["a", "b", "c"]).unwrap().as_string(), Some("9"));
    assert_eq!(root.get_by_path(&["a", "d"]).unwrap().as_string(), Some("2"));
    assert!(root.get_mut_by_path(&["a", "x"]).is_none());
    assert!(root.get_mut_by_path(&["a", "d", "e"]).is_none());
    if let Some(n) = root.get_mut_by_path(&[]) {
        *n = VdfValue::new_string("top");
    }
    assert_eq!(root.as_string(), Some("top"));
}

#[test]
fn repeated_keys_keep_first_place_and_last_value() {
    let v = parse_vdf_string("\"a\" { \"k\" \"1\" \"j\" \"2\" \"k\" \"3\" }").unwrap();
    assert_eq!(v.get_by_path(&["a", "k"]).unwrap().as_string(), Some("3"));
    let text = v.to_string();
    assert_eq!(text.matches("\"k\"").count(), 1);
    assert!(text.find("\"k\"").unwrap() < text.find("\"j\"").unwrap());
}

#[test]
fn set_object_and_value_by_path() {
    let mut root = parse_vdf_string("\"a\" { \"b\" \"1\" }").unwrap();
    let mut c = VdfMap::new();
    c.insert("x".to_string(), VdfValue::new_string("y"));
    root.set_object_by_path(&["a", "c"], c).unwrap();
    assert_eq!(root.get_by_path(&["a", "c", "x"]).unwrap().as_string(), Some("y"));
    root.set_value_by_path(&["a", "c", "x"], "z").unwrap();
    assert_eq!(root.get_by_path(&["a", "c", "x"]).unwrap().as_string(), Some("z"));
    assert_eq!(root.set_object_by_path(&["a", "b", "q"], VdfMap::new()), Err("Parent is not an object".to_string()));
    assert_eq!(root.set_value_by_path(&["nope", "q"], "1"), Err("Path not found".to_string()));
}

#[test]
fn writes_keep_keys_unique() {
    let mut root = parse_vdf_string("\"a\" { \"k\" \"1\" }").unwrap();
    root.set_value_by_path(&["a", "k"], "2").unwrap();
    root.set_value_by_path(&["a", "k"], "3").unwrap();
    let mut inner = VdfValue::new_object();
    inner.insert("k", VdfValue::new_string("x")).unwrap();
    inner.insert("k", VdfValue::new_string("y")).unwrap();
    root.set_by_path(&["a", "o"], inner).unwrap();
    let text = root.to_string();
    assert_eq!(text.matches("\"k\"").count(), 2);
    assert_eq!(root.get_by_path(&["a", "k"]).unwrap().as_string(), Some("3"));
    assert_eq!(root.get_by_path(&["a", "o", "k"]).unwrap().as_string(), Some("y"));
}

#[test]
fn reparse_gives_same_tree() {
    let text = "// comment\n\"root\"\n{\n\ta \"1\"\n\t\"a\" \"2\"\n\t\"o\" { \"v\" \"tab\\there \\\"q\\\" \\\\\" }\n\tb\t\"3\"\n}\n";
    let first = parse_vdf_string(text).unwrap();
    let again = parse_vdf_string(&first.to_string()).unwrap();
    assert_eq!(again, first);
    assert_eq!(again.get_value_by_path(&["root", "a"]), Some("2"));
    assert_eq!(again.get_value_by_path(&["root", "o", "v"]), Some("tab\there \"q\" \\"));
}

#[test]
fn written_object_parses_back_to_itself() {
    let mut root = VdfValue::new_object();
    let mut inner = VdfValue::new_object();
    inner.insert("path", VdfValue::new_string("C:\\Games \"x\"\n")).unwrap();
    inner.insert("apps", VdfValue::new_object()).unwrap();
    root.insert("1", inner).unwrap();
    root.insert("2", VdfValue::new_string("\t")).unwrap();
    root.insert("1", VdfValue::new_string("again")).unwrap();
    let back = parse_vdf_string(&root.to_string()).unwrap();
    assert_eq!(back, root);
    assert_eq!(back.as_object().unwrap().len(), 2);
}
