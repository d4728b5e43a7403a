use vstd::prelude::*;
use crate::document::{key_seq, key_set, lookup, str_views, Doc, Value};
use crate::error::DbError;

verus! {

/// The union of the top-level key sets of a row of documents: the fields
/// that occur somewhere in the collection.
pub open spec fn keys_union(docs: Seq<Doc>) -> Set<Seq<char>>
    decreases docs.len(),
{
    if docs.len() == 0 {
        Set::<Seq<char>>::empty()
    } else {
        key_set(docs[0]).union(keys_union(docs.drop_first()))
    }
}

/// A field name is in the union exactly when some document has it.
pub proof fn lemma_keys_union_contains(docs: Seq<Doc>, k: Seq<char>)
    ensures
        keys_union(docs).contains(k) <==> exists|i: int|
            0 <= i < docs.len() && key_set(#[trigger] docs[i]).contains(k),
    decreases docs.len(),
{
    if docs.len() > 0 {
        lemma_keys_union_contains(docs.drop_first(), k);
        if keys_union(docs).contains(k) {
            if key_set(docs[0]).contains(k) {
                assert(key_set(docs[0]).contains(k));
            } else {
                let i = choose|i: int|
                    0 <= i < docs.drop_first().len() && key_set(
                        #[trigger] docs.drop_first()[i],
                    ).contains(k);
                assert(docs.drop_first()[i] == docs[i + 1]);
                assert(key_set(docs[i + 1]).contains(k));
            }
        }
        if exists|i: int| 0 <= i < docs.len() && key_set(#[trigger] docs[i]).contains(k) {
            let i = choose|i: int| 0 <= i < docs.len() && key_set(#[trigger] docs[i]).contains(k);
            if i > 0 {
                assert(docs.drop_first()[i - 1] == docs[i]);
                assert(key_set(docs.drop_first()[i - 1]).contains(k));
            }
        }
    }
}

/// Appending one more document adds exactly its keys to the union.
pub proof fn lemma_keys_union_push(docs: Seq<Doc>, d: Doc)
    ensures
        keys_union(docs.push(d)) =~= keys_union(docs).union(key_set(d)),
{
    assert forall|k: Seq<char>|
        keys_union(docs.push(d)).contains(k) <==> keys_union(docs).union(key_set(d)).contains(
            k,
        ) by {
        lemma_keys_union_contains(docs.push(d), k);
        lemma_keys_union_contains(docs, k);
        if keys_union(docs.push(d)).contains(k) {
            let i = choose|i: int|
                0 <= i < docs.push(d).len() && key_set(#[trigger] docs.push(d)[i]).contains(k);
            if i < docs.len() {
                assert(docs.push(d)[i] == docs[i]);
                assert(key_set(docs[i]).contains(k));
            } else {
                assert(docs.push(d)[i] == d);
            }
        }
        if keys_union(docs).contains(k) {
            let i = choose|i: int| 0 <= i < docs.len() && key_set(#[trigger] docs[i]).contains(k);
            assert(docs.push(d)[i] == docs[i]);
            assert(key_set(docs.push(d)[i]).contains(k));
        }
        if key_set(d).contains(k) {
            assert(docs.push(d)[docs.len() as int] == d);
            assert(key_set(docs.push(d)[docs.len() as int]).contains(k));
        }
    }
}

/// The union of key sets does not depend on the order of the documents, nor
/// on how often each occurs: two rows holding the same documents, as a bag,
/// have the same union of field names.
pub proof fn lemma_keys_union_order_independent(docs1: Seq<Doc>, docs2: Seq<Doc>)
    requires
        docs1.to_multiset() == docs2.to_multiset(),
    ensures
        keys_union(docs1) =~= keys_union(docs2),
{
    broadcast use vstd::seq_lib::group_to_multiset_ensures;

    assert forall|k: Seq<char>|
        keys_union(docs1).contains(k) <==> keys_union(docs2).contains(k) by {
        lemma_keys_union_contains(docs1, k);
        lemma_keys_union_contains(docs2, k);
        if keys_union(docs1).contains(k) {
            let i = choose|i: int| 0 <= i < docs1.len() && key_set(#[trigger] docs1[i]).contains(k);
            assert(docs1.contains(docs1[i]));
            assert(docs1.to_multiset().count(docs1[i]) > 0);
            assert(docs2.to_multiset().count(docs1[i]) > 0);
            assert(docs2.contains(docs1[i]));
            let j = choose|j: int| 0 <= j < docs2.len() && docs2[j] == docs1[i];
            assert(key_set(docs2[j]).contains(k));
        }
        if keys_union(docs2).contains(k) {
            let i = choose|i: int| 0 <= i < docs2.len() && key_set(#[trigger] docs2[i]).contains(k);
            assert(docs2.contains(docs2[i]));
            assert(docs2.to_multiset().count(docs2[i]) > 0);
            assert(docs1.to_multiset().count(docs2[i]) > 0);
            assert(docs1.contains(docs2[i]));
            let j = choose|j: int| 0 <= j < docs1.len() && docs1[j] == docs2[i];
            assert(key_set(docs1[j]).contains(k));
        }
    }
}

/// The per-document lists of key names, one list per document, in collection
/// order: what remains of each document after the first two server-side
/// stages (turn the record into its entries, keep only the names).
pub open spec fn key_lists(docs: Seq<Doc>) -> Seq<Seq<Seq<char>>> {
    Seq::new(docs.len(), |i: int| key_seq(docs[i]))
}

/// Folding a row of key lists together with set union: the last server-side
/// stage.
pub open spec fn union_fold(lists: Seq<Seq<Seq<char>>>) -> Set<Seq<char>>
    decreases lists.len(),
{
    if lists.len() == 0 {
        Set::<Seq<char>>::empty()
    } else {
        lists[0].to_set().union(union_fold(lists.drop_first()))
    }
}

/// A field name survives the fold exactly when some list holds it.
pub proof fn lemma_union_fold_contains(lists: Seq<Seq<Seq<char>>>, k: Seq<char>)
    ensures
        union_fold(lists).contains(k) <==> exists|i: int|
            0 <= i < lists.len() && #[trigger] lists[i].contains(k),
    decreases lists.len(),
{
    if lists.len() > 0 {
        lemma_union_fold_contains(lists.drop_first(), k);
        if union_fold(lists).contains(k) && !lists[0].contains(k) {
            let i = choose|i: int|
                0 <= i < lists.drop_first().len() && #[trigger] lists.drop_first()[i].contains(k);
            assert(lists.drop_first()[i] == lists[i + 1]);
            assert(lists[i + 1].contains(k));
        }
        if exists|i: int| 0 <= i < lists.len() && #[trigger] lists[i].contains(k) {
            let i = choose|i: int| 0 <= i < lists.len() && #[trigger] lists[i].contains(k);
            if i > 0 {
                assert(lists.drop_first()[i - 1] == lists[i]);
                assert(lists.drop_first()[i - 1].contains(k));
            }
        }
    }
}

/// Folding the per-document key lists with set union gives exactly the union
/// of the documents' key sets: composed, the server-side stages compute the
/// set of fields that occur in the collection.
pub proof fn lemma_stage_fold_equals_union(docs: Seq<Doc>)
    ensures
        union_fold(key_lists(docs)) =~= keys_union(docs),
{
    assert forall|k: Seq<char>|
        union_fold(key_lists(docs)).contains(k) <==> keys_union(docs).contains(k) by {
        lemma_union_fold_contains(key_lists(docs), k);
        lemma_keys_union_contains(docs, k);
        assert(forall|i: int|
            0 <= i < docs.len() ==> #[trigger] key_lists(docs)[i] == key_seq(docs[i]));
        assert forall|i: int| 0 <= i < docs.len() implies (key_lists(docs)[i].contains(k) <==>
        key_set(#[trigger] docs[i]).contains(k)) by {
            assert(key_set(docs[i]) == key_seq(docs[i]).to_set());
        }
    }
}

/// Keeping each distinct key list only once, in any order — what the
/// server-side stage that accumulates the distinct per-document lists does —
/// cannot change the fold: the fold depends only on which lists occur.
pub proof fn lemma_union_fold_ignores_repeats(a: Seq<Seq<Seq<char>>>, b: Seq<Seq<Seq<char>>>)
    requires
        a.to_set() == b.to_set(),
    ensures
        union_fold(a) =~= union_fold(b),
{
    assert forall|k: Seq<char>| union_fold(a).contains(k) <==> union_fold(b).contains(k) by {
        lemma_union_fold_contains(a, k);
        lemma_union_fold_contains(b, k);
        if union_fold(a).contains(k) {
            let i = choose|i: int| 0 <= i < a.len() && #[trigger] a[i].contains(k);
            assert(a.to_set().contains(a[i]));
            let j = choose|j: int| 0 <= j < b.len() && b[j] == a[i];
            assert(b[j].contains(k));
        }
        if union_fold(b).contains(k) {
            let i = choose|i: int| 0 <= i < b.len() && #[trigger] b[i].contains(k);
            assert(b.to_set().contains(b[i]));
            let j = choose|j: int| 0 <= j < a.len() && a[j] == b[i];
            assert(a[j].contains(k));
        }
    }
}

/// The server-side computation as a whole: whatever order the collecting
/// stage keeps the distinct per-document key lists in, and however often each
/// list occurred, folding what it collected with set union yields exactly the
/// union of the documents' key sets.
pub proof fn lemma_pipeline_semantics(docs: Seq<Doc>, collected: Seq<Seq<Seq<char>>>)
    requires
        collected.to_set() == key_lists(docs).to_set(),
    ensures
        union_fold(collected) =~= keys_union(docs),
{
    lemma_union_fold_ignores_repeats(collected, key_lists(docs));
    lemma_stage_fold_equals_union(docs);
}

/// Pushing an element onto a row of strings adds exactly its view to the set
/// of views.
proof fn lemma_str_views_push_to_set(v: Seq<String>, x: String)
    ensures
        str_views(v.push(x)) =~= str_views(v).push(x@),
        str_views(v.push(x)).to_set() =~= str_views(v).to_set().insert(x@),
{
    assert(str_views(v.push(x)) =~= str_views(v).push(x@));
    assert forall|k: Seq<char>|
        str_views(v).push(x@).to_set().contains(k) <==> str_views(v).to_set().insert(x@).contains(
            k,
        ) by {
        if str_views(v).push(x@).to_set().contains(k) {
            let m = choose|m: int|
                0 <= m < str_views(v).push(x@).len() && str_views(v).push(x@)[m] == k;
            if m < v.len() {
                assert(str_views(v)[m] == k);
            }
        }
        if str_views(v).to_set().contains(k) {
            let m = choose|m: int| 0 <= m < str_views(v).len() && str_views(v)[m] == k;
            assert(str_views(v).push(x@)[m] == k);
        }
        if k == x@ {
            assert(str_views(v).push(x@)[v.len() as int] == k);
        }
    }
}

/// A fresh element keeps a duplicate-free row duplicate-free.
proof fn lemma_no_dup_push(s: Seq<Seq<char>>, x: Seq<char>)
    requires
        s.no_duplicates(),
        !s.to_set().contains(x),
    ensures
        s.push(x).no_duplicates(),
{
    assert forall|i: int, j: int| 0 <= i < j < s.push(x).len() implies s.push(x)[i] != s.push(
        x,
    )[j] by {
        if j == s.len() {
            if s[i] == x {
                assert(s.contains(x));
            }
        }
    }
}

/// Whether some element of the row views as `s`.
fn contains_string(v: &Vec<String>, s: &String) -> (r: bool)
    ensures
        r == str_views(v@).contains(s@),
{
    let mut i: usize = 0;
    while i < v.len()
        invariant
            0 <= i <= v@.len(),
            forall|j: int| 0 <= j < i ==> str_views(v@)[j] != s@,
        decreases v@.len() - i,
    {
        if v[i] == *s {
            assert(str_views(v@)[i as int] == s@);
            return true;
        }
        i += 1;
    }
    proof {
        if str_views(v@).contains(s@) {
            let j = choose|j: int| 0 <= j < str_views(v@).len() && str_views(v@)[j] == s@;
            assert(str_views(v@)[j] != s@);
        }
    }
    false
}

/// The field-discovery computation itself: the union of the top-level key
/// names across all documents of a collection, each name kept once, returned
/// as a flat row. An empty collection yields an empty row.
pub fn field_union(docs: &Vec<Doc>) -> (r: Vec<String>)
    ensures
        str_views(r@).to_set() =~= keys_union(docs@),
        str_views(r@).no_duplicates(),
        docs@.len() == 0 ==> r@.len() == 0,
{
    let mut out: Vec<String> = Vec::new();
    let mut i: usize = 0;
    while i < docs.len()
        invariant
            0 <= i <= docs@.len(),
            str_views(out@).to_set() =~= keys_union(docs@.take(i as int)),
            str_views(out@).no_duplicates(),
            i == 0 ==> out@.len() == 0,
        decreases docs@.len() - i,
    {
        let ks = docs[i].keys();
        let ghost d = docs@[i as int];
        let mut j: usize = 0;
        while j < ks.len()
            invariant
                0 <= i < docs@.len(),
                0 <= j <= ks@.len(),
                str_views(ks@) =~= key_seq(d),
                d == docs@[i as int],
                str_views(out@).to_set() =~= keys_union(docs@.take(i as int)).union(
                    str_views(ks@).take(j as int).to_set(),
                ),
                str_views(out@).no_duplicates(),
            decreases ks@.len() - j,
        {
            let ghost pre = out@;
            let k = &ks[j];
            proof {
                lemma_take_to_set_push(str_views(ks@), j as int);
                assert(str_views(ks@)[j as int] == k@);
            }
            if !contains_string(&out, k) {
                let kc = k.clone();
                let ghost kcv = kc;
                out.push(kc);
                proof {
                    lemma_str_views_push_to_set(pre, kcv);
                    lemma_no_dup_push(str_views(pre), k@);
                    assert(str_views(out@).to_set() =~= keys_union(docs@.take(i as int)).union(
                        str_views(ks@).take(j + 1 as int).to_set(),
                    ));
                }
            } else {
                proof {
                    assert(str_views(out@).to_set() =~= keys_union(docs@.take(i as int)).union(
                        str_views(ks@).take(j + 1 as int).to_set(),
                    ));
                }
            }
            j += 1;
        }
        proof {
            assert(str_views(ks@).take(ks@.len() as int) =~= str_views(ks@));
            assert(str_views(ks@).to_set() == key_seq(d).to_set());
            assert(docs@.take(i + 1 as int) =~= docs@.take(i as int).push(d));
            lemma_keys_union_push(docs@.take(i as int), d);
            assert(str_views(out@).to_set() =~= keys_union(docs@.take(i + 1 as int)));
        }
        i += 1;
    }
    proof {
        assert(docs@.take(docs@.len() as int) =~= docs@);
    }
    out
}

/// The views of the string elements of a row of values, in order; elements
/// of any other kind are passed over.
pub open spec fn str_items(vs: Seq<Value>) -> Seq<Seq<char>>
    decreases vs.len(),
{
    if vs.len() == 0 {
        Seq::<Seq<char>>::empty()
    } else {
        match vs[0] {
            Value::Str(s) => seq![s@] + str_items(vs.drop_first()),
            _ => str_items(vs.drop_first()),
        }
    }
}

/// Appending a value appends its view when it is a string and nothing
/// otherwise.
proof fn lemma_str_items_push(vs: Seq<Value>, x: Value)
    ensures
        str_items(vs.push(x)) =~= (match x {
            Value::Str(s) => str_items(vs).push(s@),
            _ => str_items(vs),
        }),
    decreases vs.len(),
{
    if vs.len() == 0 {
        assert(vs.push(x)[0] == x);
        assert(vs =~= Seq::<Value>::empty());
        assert(vs.push(x).drop_first() =~= vs);
        assert(str_items(vs) =~= Seq::<Seq<char>>::empty());
        match x {
            Value::Str(s) => {
                assert(str_items(vs.push(x)) == seq![s@] + str_items(vs.push(x).drop_first()));
                assert(str_items(vs.push(x)) =~= str_items(vs).push(s@));
            },
            _ => {
                assert(str_items(vs.push(x)) == str_items(vs.push(x).drop_first()));
                assert(str_items(vs.push(x)) =~= str_items(vs));
            },
        }
    } else {
        let rest = vs.drop_first();
        assert(vs.push(x)[0] == vs[0]);
        assert(vs.push(x).drop_first() =~= rest.push(x));
        lemma_str_items_push(rest, x);
        match x {
            Value::Str(s) => {
                match vs[0] {
                    Value::Str(s0) => {
                        assert(str_items(vs.push(x)) == seq![s0@] + str_items(rest.push(x)));
                        assert(str_items(vs) == seq![s0@] + str_items(rest));
                        assert(seq![s0@] + str_items(rest).push(s@) =~= (seq![s0@] + str_items(
                            rest,
                        )).push(s@));
                    },
                    _ => {
                        assert(str_items(vs.push(x)) == str_items(rest.push(x)));
                    },
                }
                assert(str_items(vs.push(x)) =~= str_items(vs).push(s@));
            },
            _ => {
                match vs[0] {
                    Value::Str(s0) => {
                        assert(str_items(vs.push(x)) == seq![s0@] + str_items(rest.push(x)));
                    },
                    _ => {
                        assert(str_items(vs.push(x)) == str_items(rest.push(x)));
                    },
                }
                assert(str_items(vs.push(x)) =~= str_items(vs));
            },
        }
    }
}

/// What the client reads out of the one summary record that the server-side
/// field discovery produces: the string elements of its `allKeys` array. A
/// record without that field, or one whose field is not an array, reads as
/// no field names: a faithful server always binds `allKeys` to an array, so
/// the shape of a record outside that form is left open, and the empty row
/// is the deliberate reading of it.
pub open spec fn summary_keys(d: Doc) -> Seq<Seq<char>> {
    match lookup(d@, "allKeys"@) {
        Some(Value::Arr(vs)) => str_items(vs@),
        _ => Seq::<Seq<char>>::empty(),
    }
}

/// Reads the field names out of the first record a field-discovery cursor
/// yields: the string elements of the record's `allKeys` array. No record at
/// all — the empty collection — is the empty row, not an error; a record
/// that could not be read back is the operation error carrying the
/// underlying cause.
pub fn fetch_collection_fields(first: Option<Result<Doc, String>>) -> (r: Result<
    Vec<String>,
    DbError,
>)
    ensures
        match first {
            Some(Ok(d)) => r matches Ok(names) && str_views(names@) =~= summary_keys(d),
            Some(Err(m)) => r == Err::<Vec<String>, DbError>(DbError::Operation(m)),
            None => r matches Ok(names) && names@.len() == 0,
        },
{
    match first {
        Some(Ok(d)) => {
            let key = String::from_str("allKeys");
            match d.get(&key) {
                Some(Value::Arr(vs)) => {
                    let mut out: Vec<String> = Vec::new();
                    let mut j: usize = 0;
                    while j < vs.len()
                        invariant
                            0 <= j <= vs@.len(),
                            str_views(out@) =~= str_items(vs@.take(j as int)),
                        decreases vs@.len() - j,
                    {
                        let ghost pre = out@;
                        proof {
                            assert(vs@.take(j + 1 as int) =~= vs@.take(j as int).push(
                                vs@[j as int],
                            ));
                            lemma_str_items_push(vs@.take(j as int), vs@[j as int]);
                        }
                        match &vs[j] {
                            Value::Str(s) => {
                                let sc = s.clone();
                                let ghost scv = sc;
                                out.push(sc);
                                proof {
                                    lemma_str_views_push_to_set(pre, scv);
                                }
                            },
                            _ => {},
                        }
                        j += 1;
                    }
                    proof {
                        assert(vs@.take(vs@.len() as int) =~= vs@);
                    }
                    Ok(out)
                },
                _ => Ok(Vec::new()),
            }
        },
        Some(Err(m)) => Err(DbError::Operation(m)),
        None => Ok(Vec::new()),
    }
}

/// Whether `v` is the string whose view is `s`.
pub open spec fn is_str_value(v: Value, s: Seq<char>) -> bool {
    v matches Value::Str(x) && x@ == s
}

/// The stage that turns each stored record into the list of its entries:
/// a projection binding `keys` to the record's own key/value pairs.
pub open spec fn stage_pairs_ok(d: Doc) -> bool {
    &&& key_seq(d) =~= seq!["$project"@]
    &&& match lookup(d@, "$project"@) {
        Some(Value::Doc(p)) => {
            &&& key_seq(p) =~= seq!["keys"@]
            &&& match lookup(p@, "keys"@) {
                Some(Value::Doc(o)) => {
                    &&& key_seq(o) =~= seq!["$objectToArray"@]
                    &&& match lookup(o@, "$objectToArray"@) {
                        Some(v) => is_str_value(v, "$$ROOT"@),
                        None => false,
                    }
                },
                _ => false,
            }
        },
        _ => false,
    }
}

/// The stage that keeps only the key names of each entry list: a projection
/// rebinding `keys` to the name component of the pairs.
pub open spec fn stage_key_names_ok(d: Doc) -> bool {
    &&& key_seq(d) =~= seq!["$project"@]
    &&& match lookup(d@, "$project"@) {
        Some(Value::Doc(p)) => {
            &&& key_seq(p) =~= seq!["keys"@]
            &&& match lookup(p@, "keys"@) {
                Some(v) => is_str_value(v, "$keys.k"@),
                None => false,
            }
        },
        _ => false,
    }
}

/// The stage that accumulates one record collecting the distinct
/// per-document key lists: a grouping of everything into one record whose
/// `allKeys` gathers each list once.
pub open spec fn stage_collect_ok(d: Doc) -> bool {
    &&& key_seq(d) =~= seq!["$group"@]
    &&& match lookup(d@, "$group"@) {
        Some(Value::Doc(g)) => {
            &&& key_seq(g) =~= seq!["_id"@, "allKeys"@]
            &&& lookup(g@, "_id"@) == Some(Value::Null)
            &&& match lookup(g@, "allKeys"@) {
                Some(Value::Doc(a)) => {
                    &&& key_seq(a) =~= seq!["$addToSet"@]
                    &&& match lookup(a@, "$addToSet"@) {
                        Some(v) => is_str_value(v, "$keys"@),
                        None => false,
                    }
                },
                _ => false,
            }
        },
        _ => false,
    }
}

/// The stage that folds the collected key lists together with set union,
/// starting from the empty list: a projection rebinding `allKeys` to the
/// fold of itself.
pub open spec fn stage_fold_ok(d: Doc) -> bool {
    &&& key_seq(d) =~= seq!["$project"@]
    &&& match lookup(d@, "$project"@) {
        Some(Value::Doc(p)) => {
            &&& key_seq(p) =~= seq!["allKeys"@]
            &&& match lookup(p@, "allKeys"@) {
                Some(Value::Doc(rd)) => {
                    &&& key_seq(rd) =~= seq!["$reduce"@]
                    &&& match lookup(rd@, "$reduce"@) {
                        Some(Value::Doc(f)) => {
                            &&& key_seq(f) =~= seq!["input"@, "initialValue"@, "in"@]
                            &&& match lookup(f@, "input"@) {
                                Some(v) => is_str_value(v, "$allKeys"@),
                                None => false,
                            }
                            &&& match lookup(f@, "initialValue"@) {
                                Some(Value::Arr(a)) => a@.len() == 0,
                                _ => false,
                            }
                            &&& match lookup(f@, "in"@) {
                                Some(Value::Doc(u)) => {
                                    &&& key_seq(u) =~= seq!["$setUnion"@]
                                    &&& match lookup(u@, "$setUnion"@) {
                                        Some(Value::Arr(args)) => {
                                            &&& args@.len() == 2
                                            &&& is_str_value(args@[0], "$$value"@)
                                            &&& is_str_value(args@[1], "$$this"@)
                                        },
                                        _ => false,
                                    }
                                },
                                _ => false,
                            }
                        },
                        _ => false,
                    }
                },
                _ => false,
            }
        },
        _ => false,
    }
}

/// The aggregation pipeline that discovers the union of field names across
/// the documents of a collection on the server side, so that the client
/// reads one summary record and never the raw documents: turn each record
/// into its entry list, keep the key names, collect the distinct lists into
/// one record, and fold them together with set union under `allKeys`.
pub fn field_discovery_pipeline() -> (r: Vec<Doc>)
    ensures
        r@.len() == 4,
        stage_pairs_ok(r@[0]),
        stage_key_names_ok(r@[1]),
        stage_collect_ok(r@[2]),
        stage_fold_ok(r@[3]),
{
    let mut object_to_array = Doc::new();
    object_to_array.push_entry(
        String::from_str("$objectToArray"),
        Value::Str(String::from_str("$$ROOT")),
    );
    let ghost oa = object_to_array;
    let mut pairs_binding = Doc::new();
    pairs_binding.push_entry(String::from_str("keys"), Value::Doc(object_to_array));
    let ghost pb = pairs_binding;
    let mut stage_pairs = Doc::new();
    stage_pairs.push_entry(String::from_str("$project"), Value::Doc(pairs_binding));
    proof {
        assert(key_seq(oa) =~= seq!["$objectToArray"@]);
        assert(key_seq(pb) =~= seq!["keys"@]);
        assert(key_seq(stage_pairs) =~= seq!["$project"@]);
        assert(lookup(pb@, "keys"@) == Some(Value::Doc(oa)));
        assert(lookup(stage_pairs@, "$project"@) == Some(Value::Doc(pb)));
        assert(stage_pairs_ok(stage_pairs));
    }

    let mut names_binding = Doc::new();
    names_binding.push_entry(String::from_str("keys"), Value::Str(String::from_str("$keys.k")));
    let ghost nb = names_binding;
    let mut stage_names = Doc::new();
    stage_names.push_entry(String::from_str("$project"), Value::Doc(names_binding));
    proof {
        assert(key_seq(nb) =~= seq!["keys"@]);
        assert(key_seq(stage_names) =~= seq!["$project"@]);
        assert(lookup(stage_names@, "$project"@) == Some(Value::Doc(nb)));
        assert(stage_key_names_ok(stage_names));
    }

    let mut add_to_set = Doc::new();
    add_to_set.push_entry(String::from_str("$addToSet"), Value::Str(String::from_str("$keys")));
    let ghost ats = add_to_set;
    let mut group_binding = Doc::new();
    group_binding.push_entry(String::from_str("_id"), Value::Null);
    group_binding.push_entry(String::from_str("allKeys"), Value::Doc(add_to_set));
    let ghost gb = group_binding;
    let mut stage_collect = Doc::new();
    stage_collect.push_entry(String::from_str("$group"), Value::Doc(group_binding));
    proof {
        reveal_strlit("_id");
        reveal_strlit("allKeys");
        reveal_with_fuel(lookup, 3);
        assert("_id"@.len() == 3);
        assert("allKeys"@.len() == 7);
        assert("_id"@ != "allKeys"@);
        assert(key_seq(ats) =~= seq!["$addToSet"@]);
        assert(key_seq(gb) =~= seq!["_id"@, "allKeys"@]);
        assert(gb@[0] == ("_id"@, Value::Null));
        assert(lookup(gb@, "_id"@) == Some(Value::Null));
        assert(gb@.drop_first() =~= seq![("allKeys"@, Value::Doc(ats))]);
        assert(lookup(gb@, "allKeys"@) == Some(Value::Doc(ats)));
        assert(key_seq(stage_collect) =~= seq!["$group"@]);
        assert(lookup(stage_collect@, "$group"@) == Some(Value::Doc(gb)));
        assert(stage_collect_ok(stage_collect));
    }

    let mut union_args = Doc::new();
    union_args.push_entry(
        String::from_str("$setUnion"),
        Value::Arr(
            vec![
                Value::Str(String::from_str("$$value")),
                Value::Str(String::from_str("$$this")),
            ],
        ),
    );
    let ghost ua = union_args;
    let mut fold_binding = Doc::new();
    fold_binding.push_entry(String::from_str("input"), Value::Str(String::from_str("$allKeys")));
    fold_binding.push_entry(String::from_str("initialValue"), Value::Arr(Vec::new()));
    fold_binding.push_entry(String::from_str("in"), Value::Doc(union_args));
    let ghost fb = fold_binding;
    let mut reduce_binding = Doc::new();
    reduce_binding.push_entry(String::from_str("$reduce"), Value::Doc(fold_binding));
    let ghost rb = reduce_binding;
    let mut fold_target = Doc::new();
    fold_target.push_entry(String::from_str("allKeys"), Value::Doc(reduce_binding));
    let ghost ft = fold_target;
    let mut stage_fold = Doc::new();
    stage_fold.push_entry(String::from_str("$project"), Value::Doc(fold_target));
    proof {
        reveal_strlit("input");
        reveal_strlit("initialValue");
        reveal_strlit("in");
        reveal_with_fuel(lookup, 4);
        assert("input"@.len() == 5);
        assert("initialValue"@.len() == 12);
        assert("in"@.len() == 2);
        assert("input"@ != "initialValue"@);
        assert("input"@ != "in"@);
        assert("initialValue"@ != "in"@);
        assert(key_seq(ua) =~= seq!["$setUnion"@]);
        assert(key_seq(fb) =~= seq!["input"@, "initialValue"@, "in"@]);
        assert(lookup(fb@, "input"@) matches Some(v) && is_str_value(v, "$allKeys"@));
        assert(fb@.drop_first() =~= seq![
            ("initialValue"@, fb@[1].1),
            ("in"@, Value::Doc(ua)),
        ]);
        assert(lookup(fb@, "initialValue"@) == Some(fb@[1].1));
        assert(fb@[1].1 matches Value::Arr(a) && a@.len() == 0);
        assert(fb@.drop_first().drop_first() =~= seq![("in"@, Value::Doc(ua))]);
        assert(lookup(fb@, "in"@) == Some(Value::Doc(ua)));
        assert(lookup(ua@, "$setUnion"@) matches Some(Value::Arr(args)) && args@.len() == 2
            && is_str_value(args@[0], "$$value"@) && is_str_value(args@[1], "$$this"@));
        assert(key_seq(rb) =~= seq!["$reduce"@]);
        assert(lookup(rb@, "$reduce"@) == Some(Value::Doc(fb)));
        assert(key_seq(ft) =~= seq!["allKeys"@]);
        assert(lookup(ft@, "allKeys"@) == Some(Value::Doc(rb)));
        assert(key_seq(stage_fold) =~= seq!["$project"@]);
        assert(lookup(stage_fold@, "$project"@) == Some(Value::Doc(ft)));
        assert(stage_fold_ok(stage_fold));
    }

    let mut pipeline: Vec<Doc> = Vec::new();
    pipeline.push(stage_pairs);
    pipeline.push(stage_names);
    pipeline.push(stage_collect);
    pipeline.push(stage_fold);
    pipeline
}

/// Taking one element more extends the set of a prefix by that element.
proof fn lemma_take_to_set_push(s: Seq<Seq<char>>, j: int)
    requires
        0 <= j < s.len(),
    ensures
        s.take(j + 1).to_set() =~= s.take(j).to_set().insert(s[j]),
{
    let longer = s.take(j + 1);
    let shorter = s.take(j);
    assert forall|k: Seq<char>|
        longer.to_set().contains(k) <==> shorter.to_set().insert(s[j]).contains(k) by {
        if longer.to_set().contains(k) {
            let m = choose|m: int| 0 <= m < longer.len() && longer[m] == k;
            if m < j {
                assert(shorter[m] == k);
            } else {
                assert(s[j] == k);
            }
        }
        if shorter.to_set().contains(k) {
            let m = choose|m: int| 0 <= m < shorter.len() && shorter[m] == k;
            assert(longer[m] == k);
        }
        if k == s[j] {
            assert(longer[j] == k);
        }
    }
}

} // verus!
