use processr::value::{Properties, Value};

#[test]
fn text_as_list_as_map_round_trip() {
    let x = Value::Text(String::from("x"));
    let list = x.as_list();
    assert_eq!(1, list.len());
    let map = list[0].as_map();
    assert_eq!(Some(&Value::Text(String::from("x"))), map.get("i"));
}

#[test]
fn coercions() {
    let list = Value::List(vec![Value::Text(String::from("a")), Value::Mapping(Properties::new()), Value::Text(String::from("b"))]);
    assert_eq!(Some(String::from("a, b")), list.as_string());
    assert_eq!(None, Value::Mapping(Properties::new()).as_string());
    assert_eq!(Some(String::from("")), Value::List(vec![]).as_string());
    let mut p = Properties::new();
    p.insert(String::from("k"), Value::Text(String::from("v")));
    let m = Value::Mapping(p);
    assert_eq!(1, m.as_list().len());
    assert_eq!(Some(&Value::Text(String::from("v"))), m.as_map().get("k"));
}

#[test]
fn later_insert_wins() {
    let mut p = Properties::new();
    p.insert(String::from("k"), Value::Text(String::from("1")));
    p.insert(String::from("k"), Value::Text(String::from("2")));
    assert_eq!(Some(&Value::Text(String::from("2"))), p.get("k"));
    let mut q = Properties::new();
    q.insert(String::from("k"), Value::Text(String::from("3")));
    q.insert(String::from("j"), Value::Text(String::from("4")));
    p.extend(&q);
    assert_eq!(Some(&Value::Text(String::from("3"))), p.get("k"));
    assert_eq!(Some(&Value::Text(String::from("4"))), p.get("j"));
}
