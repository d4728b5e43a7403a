use db_client::document::{Doc, Value};

#[test]
fn entries_keep_their_order_and_values() {
    let mut d = Doc::new();
    assert_eq!(d.len(), 0);
    d.push_entry("name".to_string(), Value::Str("Olivia".to_string()));
    d.push_entry("age".to_string(), Value::Num(4));
    d.push_entry("vaccinated".to_string(), Value::Bool(true));
    assert_eq!(d.len(), 3);
    assert_eq!(
        d.keys(),
        vec!["name".to_string(), "age".to_string(), "vaccinated".to_string()]
    );
    assert_eq!(d.get(&"name".to_string()), Some(&Value::Str("Olivia".to_string())));
    assert_eq!(d.get(&"age".to_string()), Some(&Value::Num(4)));
    assert_eq!(d.get(&"nation".to_string()), None);
}

#[test]
fn contains_key_sees_exactly_the_top_level_names() {
    let mut nested = Doc::new();
    nested.push_entry("inner".to_string(), Value::Num(1));
    let mut d = Doc::new();
    d.push_entry("outer".to_string(), Value::Doc(nested));
    assert!(d.contains_key(&"outer".to_string()));
    assert!(!d.contains_key(&"inner".to_string()));
    assert!(!d.contains_key(&"missing".to_string()));
}

#[test]
fn a_repeated_key_resolves_to_its_first_entry() {
    let mut d = Doc::new();
    d.push_entry("k".to_string(), Value::Num(1));
    d.push_entry("k".to_string(), Value::Num(2));
    assert_eq!(d.get(&"k".to_string()), Some(&Value::Num(1)));
    assert_eq!(d.keys(), vec!["k".to_string(), "k".to_string()]);
}
