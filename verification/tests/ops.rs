use db_client::document::{Doc, Value};
use db_client::error::DbError;
use db_client::ops::{
    delete_many_step, fetch_collections, find_many_step, insert_one, list_databases,
    list_databases_outcome, update_one, CursorEvent, CursorStep, DeleteStep,
};

fn named_doc(name: &str) -> Doc {
    let mut d = Doc::new();
    d.push_entry("name".to_string(), Value::Str(name.to_string()));
    d
}

#[test]
fn cursor_items_are_collected_in_order() {
    let mut results: Vec<Doc> = Vec::new();
    assert_eq!(
        find_many_step(&mut results, CursorEvent::Item(named_doc("Olivia"))),
        CursorStep::Continue
    );
    assert_eq!(
        find_many_step(&mut results, CursorEvent::Item(named_doc("Black"))),
        CursorStep::Continue
    );
    assert_eq!(find_many_step(&mut results, CursorEvent::End), CursorStep::Done);
    assert_eq!(results, vec![named_doc("Olivia"), named_doc("Black")]);
}

#[test]
fn an_inserted_document_read_back_is_returned_unchanged() {
    let mut results: Vec<Doc> = Vec::new();
    let inserted = named_doc("Olivia");
    find_many_step(&mut results, CursorEvent::Item(named_doc("Olivia")));
    find_many_step(&mut results, CursorEvent::End);
    assert_eq!(results.len(), 1);
    assert_eq!(results[0], inserted);
}

#[test]
fn a_cursor_failure_aborts_and_keeps_the_partial_set() {
    let mut results: Vec<Doc> = Vec::new();
    find_many_step(&mut results, CursorEvent::Item(named_doc("Olivia")));
    assert_eq!(
        find_many_step(&mut results, CursorEvent::ItemError("interrupted".to_string())),
        CursorStep::Abort(DbError::Operation("interrupted".to_string()))
    );
    assert_eq!(results, vec![named_doc("Olivia")]);
}

#[test]
fn insert_one_returns_the_generated_identifier() {
    let id = vec![1u8, 2, 3, 4, 5, 6, 7, 8, 9, 10, 11, 12];
    assert_eq!(insert_one(Ok(Value::Id(id.clone()))), Ok(id));
}

#[test]
fn insert_one_rejects_an_identifier_of_the_wrong_form() {
    assert_eq!(
        insert_one(Ok(Value::Str("not an identifier".to_string()))),
        Err(DbError::InvalidInsertedId)
    );
    assert_eq!(insert_one(Ok(Value::Null)), Err(DbError::InvalidInsertedId));
}

#[test]
fn insert_one_carries_the_underlying_cause() {
    assert_eq!(
        insert_one(Err("write refused".to_string())),
        Err(DbError::Operation("write refused".to_string()))
    );
}

#[test]
fn update_matching_nothing_is_count_zero_not_an_error() {
    assert_eq!(update_one(Ok(0)), Ok(0));
}

#[test]
fn update_one_passes_the_count_and_the_error_through() {
    assert_eq!(update_one(Ok(3)), Ok(3));
    assert_eq!(
        update_one(Err("bad update document".to_string())),
        Err(DbError::Operation("bad update document".to_string()))
    );
}

#[test]
fn delete_counts_accumulate_across_filters() {
    let mut total: u64 = 0;
    assert_eq!(delete_many_step(&mut total, Ok(2)), DeleteStep::Continue);
    assert_eq!(delete_many_step(&mut total, Ok(3)), DeleteStep::Continue);
    assert_eq!(total, 5);
}

#[test]
fn a_failing_filter_aborts_the_batch() {
    let mut total: u64 = 0;
    assert_eq!(delete_many_step(&mut total, Ok(1)), DeleteStep::Continue);
    assert_eq!(
        delete_many_step(&mut total, Err("invalid filter".to_string())),
        DeleteStep::Abort(DbError::Operation("invalid filter".to_string()))
    );
    assert_eq!(total, 1);
}

#[test]
fn collection_listings_pass_through_and_carry_failures() {
    let names = vec!["cats".to_string(), "dogs".to_string()];
    assert_eq!(fetch_collections(Ok(names.clone())), Ok(names));
    assert_eq!(
        fetch_collections(Err("listing refused".to_string())),
        Err(DbError::Operation("listing refused".to_string()))
    );
}

#[test]
fn database_listings_carry_failures() {
    let infos = list_databases_outcome(Ok(vec![("admin".to_string(), 4096u64)])).unwrap();
    assert_eq!(infos.len(), 1);
    assert_eq!(infos[0].name, "admin");
    assert_eq!(infos[0].size_on_disk, 4096);
    assert_eq!(
        list_databases_outcome(Err("listing refused".to_string())),
        Err(DbError::Operation("listing refused".to_string()))
    );
}

#[test]
fn database_listings_keep_names_and_sizes() {
    let specs = vec![
        ("admin".to_string(), 40960u64),
        ("animals".to_string(), 122880u64),
    ];
    let infos = list_databases(&specs);
    assert_eq!(infos.len(), 2);
    assert_eq!(infos[0].name, "admin");
    assert_eq!(infos[0].size_on_disk, 40960);
    assert_eq!(infos[1].name, "animals");
    assert_eq!(infos[1].size_on_disk, 122880);
}
