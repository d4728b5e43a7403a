use vstd::prelude::*;
use crate::document::{Doc, Value};
use crate::error::DbError;

verus! {

/// Description of one database on the server: its name and its size on disk,
/// in bytes. Produced only when listing databases; read-only and ephemeral.
#[derive(Debug, PartialEq, Eq)]
pub struct DatabaseInfo {
    pub name: String,
    pub size_on_disk: u64,
}

/// One step of draining a result cursor: the next document, a failure while
/// reading it (with the underlying cause), or the end of the result set.
pub enum CursorEvent {
    Item(Doc),
    ItemError(String),
    End,
}

/// What the caller driving a cursor must do after one step.
#[derive(Debug, PartialEq, Eq)]
pub enum CursorStep {
    Continue,
    Done,
    Abort(DbError),
}

/// What the caller applying a row of delete filters must do after one of
/// them: go on to the next filter, or stop with the error.
#[derive(Debug, PartialEq, Eq)]
pub enum DeleteStep {
    Continue,
    Abort(DbError),
}

/// Folds one cursor step into the materialized result set: a document is
/// appended, a read failure aborts with the cause and keeps the set as it
/// was, and the end of the cursor leaves it complete.
pub fn find_many_step(results: &mut Vec<Doc>, ev: CursorEvent) -> (r: CursorStep)
    ensures
        match ev {
            CursorEvent::Item(d) => final(results)@ == old(results)@.push(d) && r
                == CursorStep::Continue,
            CursorEvent::ItemError(m) => final(results)@ == old(results)@ && r
                == CursorStep::Abort(DbError::Operation(m)),
            CursorEvent::End => final(results)@ == old(results)@ && r == CursorStep::Done,
        },
{
    match ev {
        CursorEvent::Item(d) => {
            results.push(d);
            CursorStep::Continue
        },
        CursorEvent::ItemError(m) => CursorStep::Abort(DbError::Operation(m)),
        CursorEvent::End => CursorStep::Done,
    }
}

/// Normalizes the reply to one insert: a generated identifier is handed
/// through, a reply whose identifier is not in the expected form is the
/// invalid-identifier error, and a failed call carries its underlying cause.
pub fn insert_one(outcome: Result<Value, String>) -> (r: Result<Vec<u8>, DbError>)
    ensures
        match outcome {
            Ok(v) => match v {
                Value::Id(b) => r == Ok::<Vec<u8>, DbError>(b),
                _ => r == Err::<Vec<u8>, DbError>(DbError::InvalidInsertedId),
            },
            Err(m) => r == Err::<Vec<u8>, DbError>(DbError::Operation(m)),
        },
{
    match outcome {
        Ok(v) => match v {
            Value::Id(b) => Ok(b),
            _ => Err(DbError::InvalidInsertedId),
        },
        Err(m) => Err(DbError::Operation(m)),
    }
}

/// Normalizes the reply to one update: the count of modified documents is
/// handed through unchanged (a filter that matched nothing yields the count
/// zero, not an error), and a failed call carries its underlying cause.
pub fn update_one(outcome: Result<u64, String>) -> (r: Result<u64, DbError>)
    ensures
        match outcome {
            Ok(c) => r == Ok::<u64, DbError>(c),
            Err(m) => r == Err::<u64, DbError>(DbError::Operation(m)),
        },
{
    match outcome {
        Ok(c) => Ok(c),
        Err(m) => Err(DbError::Operation(m)),
    }
}

/// Folds the reply to one delete filter into the running total: a successful
/// call adds its deleted count, and a failed one aborts with the cause,
/// discarding nothing that earlier filters already committed but reporting
/// no count at all.
pub fn delete_many_step(total: &mut u64, outcome: Result<u64, String>) -> (r: DeleteStep)
    requires
        outcome matches Ok(c) ==> *old(total) + c <= u64::MAX,
    ensures
        match outcome {
            Ok(c) => *final(total) == *old(total) + c && r == DeleteStep::Continue,
            Err(m) => *final(total) == *old(total) && r == DeleteStep::Abort(
                DbError::Operation(m),
            ),
        },
{
    match outcome {
        Ok(c) => {
            *total = *total + c;
            DeleteStep::Continue
        },
        Err(m) => DeleteStep::Abort(DbError::Operation(m)),
    }
}

/// Normalizes the reply to one collection listing: the names are handed
/// through unchanged, and a failed call carries its underlying cause.
pub fn fetch_collections(outcome: Result<Vec<String>, String>) -> (r: Result<
    Vec<String>,
    DbError,
>)
    ensures
        match outcome {
            Ok(names) => r == Ok::<Vec<String>, DbError>(names),
            Err(m) => r == Err::<Vec<String>, DbError>(DbError::Operation(m)),
        },
{
    match outcome {
        Ok(names) => Ok(names),
        Err(m) => Err(DbError::Operation(m)),
    }
}

/// Normalizes the reply to one database listing: every entry becomes a
/// `DatabaseInfo` with its name and size unchanged and in listing order, and
/// a failed call carries its underlying cause.
pub fn list_databases_outcome(outcome: Result<Vec<(String, u64)>, String>) -> (r: Result<
    Vec<DatabaseInfo>,
    DbError,
>)
    ensures
        match outcome {
            Ok(specs) => r matches Ok(infos) && infos@.len() == specs@.len() && (forall|i: int|
                0 <= i < infos@.len() ==> #[trigger] infos@[i].name@ == specs@[i].0@
                    && infos@[i].size_on_disk == specs@[i].1),
            Err(m) => r == Err::<Vec<DatabaseInfo>, DbError>(DbError::Operation(m)),
        },
{
    match outcome {
        Ok(specs) => Ok(list_databases(&specs)),
        Err(m) => Err(DbError::Operation(m)),
    }
}

/// Normalizes one database listing entry into a `DatabaseInfo`, keeping the
/// order of the listing and every name and size unchanged.
pub fn list_databases(specs: &Vec<(String, u64)>) -> (r: Vec<DatabaseInfo>)
    ensures
        r@.len() == specs@.len(),
        forall|i: int|
            0 <= i < r@.len() ==> #[trigger] r@[i].name@ == specs@[i].0@ && r@[i].size_on_disk
                == specs@[i].1,
{
    let mut out: Vec<DatabaseInfo> = Vec::new();
    let mut i: usize = 0;
    while i < specs.len()
        invariant
            0 <= i <= specs@.len(),
            out@.len() == i,
            forall|j: int|
                0 <= j < i ==> #[trigger] out@[j].name@ == specs@[j].0@ && out@[j].size_on_disk
                    == specs@[j].1,
        decreases specs@.len() - i,
    {
        let name = specs[i].0.clone();
        let size_on_disk = specs[i].1;
        out.push(DatabaseInfo { name, size_on_disk });
        i += 1;
    }
    out
}

} // verus!
