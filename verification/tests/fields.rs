use db_client::document::{Doc, Value};
use db_client::error::DbError;
use db_client::fields::{fetch_collection_fields, field_discovery_pipeline, field_union};

fn doc_of(keys: &[&str]) -> Doc {
    let mut d = Doc::new();
    for (i, k) in keys.iter().enumerate() {
        d.push_entry(k.to_string(), Value::Num(i as i64));
    }
    d
}

fn sorted(mut v: Vec<String>) -> Vec<String> {
    v.sort();
    v
}

#[test]
fn field_union_is_the_union_of_key_sets() {
    let docs = vec![doc_of(&["a", "b"]), doc_of(&["b", "c"])];
    let fields = sorted(field_union(&docs));
    assert_eq!(fields, vec!["a".to_string(), "b".to_string(), "c".to_string()]);
}

#[test]
fn field_union_does_not_depend_on_document_order() {
    let forward = vec![doc_of(&["a", "b"]), doc_of(&["b", "c"])];
    let backward = vec![doc_of(&["b", "c"]), doc_of(&["a", "b"])];
    assert_eq!(sorted(field_union(&forward)), sorted(field_union(&backward)));
}

#[test]
fn field_union_of_no_documents_is_empty() {
    let docs: Vec<Doc> = Vec::new();
    assert_eq!(field_union(&docs), Vec::<String>::new());
}

#[test]
fn field_union_keeps_each_name_once() {
    let docs = vec![doc_of(&["a"]), doc_of(&["a"]), doc_of(&["a", "b"])];
    assert_eq!(sorted(field_union(&docs)), vec!["a".to_string(), "b".to_string()]);
}

fn summary_with(values: Vec<Value>) -> Doc {
    let mut d = Doc::new();
    d.push_entry("_id".to_string(), Value::Null);
    d.push_entry("allKeys".to_string(), Value::Arr(values));
    d
}

#[test]
fn fetch_collection_fields_reads_the_summary_record() {
    let summary = summary_with(vec![
        Value::Str("name".to_string()),
        Value::Str("nation".to_string()),
    ]);
    assert_eq!(
        fetch_collection_fields(Some(Ok(summary))),
        Ok(vec!["name".to_string(), "nation".to_string()])
    );
}

#[test]
fn fetch_collection_fields_keeps_only_strings() {
    let summary = summary_with(vec![
        Value::Str("a".to_string()),
        Value::Num(4),
        Value::Str("b".to_string()),
        Value::Null,
    ]);
    assert_eq!(
        fetch_collection_fields(Some(Ok(summary))),
        Ok(vec!["a".to_string(), "b".to_string()])
    );
}

#[test]
fn fetch_collection_fields_of_empty_collection_is_empty_not_an_error() {
    assert_eq!(fetch_collection_fields(None), Ok(Vec::<String>::new()));
}

#[test]
fn fetch_collection_fields_without_the_expected_field_is_empty() {
    let mut summary = Doc::new();
    summary.push_entry("_id".to_string(), Value::Null);
    assert_eq!(fetch_collection_fields(Some(Ok(summary))), Ok(Vec::<String>::new()));
}

#[test]
fn fetch_collection_fields_with_a_malformed_summary_is_empty() {
    let mut summary = Doc::new();
    summary.push_entry("allKeys".to_string(), Value::Str("oops".to_string()));
    assert_eq!(fetch_collection_fields(Some(Ok(summary))), Ok(Vec::<String>::new()));
}

#[test]
fn fetch_collection_fields_with_an_unreadable_record_is_an_error() {
    assert_eq!(
        fetch_collection_fields(Some(Err("cursor failure".to_string()))),
        Err(DbError::Operation("cursor failure".to_string()))
    );
}

#[test]
fn pipeline_has_the_four_stages() {
    let pipeline = field_discovery_pipeline();
    assert_eq!(pipeline.len(), 4);

    let project = "$project".to_string();
    let keys = "keys".to_string();
    match pipeline[0].get(&project) {
        Some(Value::Doc(p)) => match p.get(&keys) {
            Some(Value::Doc(o)) => {
                assert_eq!(
                    o.get(&"$objectToArray".to_string()),
                    Some(&Value::Str("$$ROOT".to_string()))
                );
            }
            other => panic!("unexpected keys binding: {:?}", other),
        },
        other => panic!("unexpected first stage: {:?}", other),
    }

    match pipeline[1].get(&project) {
        Some(Value::Doc(p)) => {
            assert_eq!(p.get(&keys), Some(&Value::Str("$keys.k".to_string())));
        }
        other => panic!("unexpected second stage: {:?}", other),
    }

    match pipeline[2].get(&"$group".to_string()) {
        Some(Value::Doc(g)) => {
            assert_eq!(g.get(&"_id".to_string()), Some(&Value::Null));
            match g.get(&"allKeys".to_string()) {
                Some(Value::Doc(a)) => {
                    assert_eq!(
                        a.get(&"$addToSet".to_string()),
                        Some(&Value::Str("$keys".to_string()))
                    );
                }
                other => panic!("unexpected accumulator: {:?}", other),
            }
        }
        other => panic!("unexpected third stage: {:?}", other),
    }

    match pipeline[3].get(&project) {
        Some(Value::Doc(p)) => match p.get(&"allKeys".to_string()) {
            Some(Value::Doc(r)) => match r.get(&"$reduce".to_string()) {
                Some(Value::Doc(f)) => {
                    assert_eq!(
                        f.get(&"input".to_string()),
                        Some(&Value::Str("$allKeys".to_string()))
                    );
                    assert_eq!(
                        f.get(&"initialValue".to_string()),
                        Some(&Value::Arr(Vec::new()))
                    );
                    match f.get(&"in".to_string()) {
                        Some(Value::Doc(u)) => {
                            assert_eq!(
                                u.get(&"$setUnion".to_string()),
                                Some(&Value::Arr(vec![
                                    Value::Str("$$value".to_string()),
                                    Value::Str("$$this".to_string()),
                                ]))
                            );
                        }
                        other => panic!("unexpected fold body: {:?}", other),
                    }
                }
                other => panic!("unexpected fold settings: {:?}", other),
            },
            other => panic!("unexpected fold binding: {:?}", other),
        },
        other => panic!("unexpected fourth stage: {:?}", other),
    }
}
