use vstd::prelude::*;

verus! {

/// A dynamically-typed field value: string, number, boolean, nested
/// document, array, identifier, or null. Together with `Doc` this is the
/// schemaless record that every operation stores, matches and updates. An
/// identifier is carried as its twelve bytes; a stored value of a kind
/// outside this model (a floating-point number, a date) is expected to be
/// handed in by callers as its text rendering.
#[derive(Debug, PartialEq)]
pub enum Value {
    Null,
    Str(String),
    Num(i64),
    Bool(bool),
    Doc(Doc),
    Arr(Vec<Value>),
    Id(Vec<u8>),
}

/// A document: an ordered mapping from string keys to `Value`s. Entries keep
/// the order in which they were appended. A well-formed document has no
/// repeated top-level key; `lookup` and `get` resolve a repeated key to its
/// first entry.
#[derive(Debug, PartialEq)]
pub struct Doc {
    pub entries: Vec<(String, Value)>,
}

impl View for Doc {
    type V = Seq<(Seq<char>, Value)>;

    open spec fn view(&self) -> Seq<(Seq<char>, Value)> {
        self.entries@.map_values(|p: (String, Value)| (p.0@, p.1))
    }
}

/// The views of a sequence of strings, element by element.
pub open spec fn str_views(ss: Seq<String>) -> Seq<Seq<char>> {
    Seq::new(ss.len(), |i: int| ss[i]@)
}

/// The top-level key names of a document, in entry order.
pub open spec fn key_seq(d: Doc) -> Seq<Seq<char>> {
    d@.map_values(|p: (Seq<char>, Value)| p.0)
}

/// The set of top-level key names of a document.
pub open spec fn key_set(d: Doc) -> Set<Seq<char>> {
    key_seq(d).to_set()
}

/// The value bound to `key`, resolved to the first matching entry.
pub open spec fn lookup(entries: Seq<(Seq<char>, Value)>, key: Seq<char>) -> Option<Value>
    decreases entries.len(),
{
    if entries.len() == 0 {
        None
    } else if entries[0].0 == key {
        Some(entries[0].1)
    } else {
        lookup(entries.drop_first(), key)
    }
}

/// Skipping a prefix with no matching key does not change what `lookup` finds.
proof fn lemma_lookup_skip(entries: Seq<(Seq<char>, Value)>, key: Seq<char>, i: int)
    requires
        0 <= i <= entries.len(),
        forall|j: int| 0 <= j < i ==> entries[j].0 != key,
    ensures
        lookup(entries, key) == lookup(entries.skip(i), key),
    decreases i,
{
    if i > 0 {
        assert(entries.len() > 0);
        assert(entries[0].0 != key);
        lemma_lookup_skip(entries.drop_first(), key, i - 1);
        assert(entries.drop_first().skip(i - 1) =~= entries.skip(i));
    } else {
        assert(entries.skip(0) =~= entries);
    }
}

impl Doc {
    /// A well-formed document has pairwise distinct top-level keys.
    pub open spec fn wf(&self) -> bool {
        key_seq(*self).no_duplicates()
    }

    /// The empty document.
    pub fn new() -> (d: Doc)
        ensures
            d@ =~= Seq::<(Seq<char>, Value)>::empty(),
            d.wf(),
    {
        Doc { entries: Vec::new() }
    }

    pub fn len(&self) -> (n: usize)
        ensures
            n == self@.len(),
    {
        self.entries.len()
    }

    /// Appends an entry at the end. Appending a key that is not yet present
    /// keeps the document well-formed.
    pub fn push_entry(&mut self, key: String, value: Value)
        ensures
            final(self)@ =~= old(self)@.push((key@, value)),
            old(self).wf() && !key_set(*old(self)).contains(key@) ==> final(self).wf(),
    {
        let ghost prev = self@;
        let ghost k = key@;
        self.entries.push((key, value));
        proof {
            assert(self@ =~= prev.push((k, value)));
            if old(self).wf() && !key_set(*old(self)).contains(k) {
                let new_keys = key_seq(*self);
                let old_keys = prev.map_values(|p: (Seq<char>, Value)| p.0);
                assert(new_keys =~= old_keys.push(k));
                assert(forall|j: int| 0 <= j < old_keys.len() ==> old_keys[j] != k) by {
                    assert(forall|j: int| 0 <= j < old_keys.len() ==> old_keys.to_set().contains(
                        #[trigger] old_keys[j],
                    ));
                }
                assert(new_keys.no_duplicates());
            }
        }
    }

    /// Whether `key` names a top-level field.
    pub fn contains_key(&self, key: &String) -> (r: bool)
        ensures
            r == key_set(*self).contains(key@),
    {
        let ghost keys = key_seq(*self);
        let mut i: usize = 0;
        while i < self.entries.len()
            invariant
                0 <= i <= self.entries.len(),
                keys == key_seq(*self),
                keys.len() == self.entries.len(),
                forall|j: int| 0 <= j < i ==> keys[j] != key@,
            decreases self.entries.len() - i,
        {
            if self.entries[i].0 == *key {
                assert(keys[i as int] == key@);
                assert(keys.to_set().contains(key@));
                return true;
            }
            i += 1;
        }
        proof {
            if keys.to_set().contains(key@) {
                let j = choose|j: int| 0 <= j < keys.len() && keys[j] == key@;
                assert(keys[j] != key@);
            }
        }
        false
    }

    /// The value of the first entry named `key`, if any.
    pub fn get<'a>(&'a self, key: &String) -> (r: Option<&'a Value>)
        ensures
            match r {
                Some(v) => lookup(self@, key@) == Some(*v),
                None => lookup(self@, key@) is None,
            },
    {
        let mut i: usize = 0;
        while i < self.entries.len()
            invariant
                0 <= i <= self.entries.len(),
                self@.len() == self.entries.len(),
                forall|j: int| 0 <= j < i ==> self@[j].0 != key@,
            decreases self.entries.len() - i,
        {
            if self.entries[i].0 == *key {
                proof {
                    lemma_lookup_skip(self@, key@, i as int);
                    assert(self@.skip(i as int)[0] == self@[i as int]);
                }
                return Some(&self.entries[i].1);
            }
            i += 1;
        }
        proof {
            lemma_lookup_skip(self@, key@, self@.len() as int);
            assert(self@.skip(self@.len() as int) =~= Seq::<(Seq<char>, Value)>::empty());
        }
        None
    }

    /// The top-level key names, in entry order.
    pub fn keys(&self) -> (r: Vec<String>)
        ensures
            str_views(r@) =~= key_seq(*self),
    {
        let mut out: Vec<String> = Vec::new();
        let mut i: usize = 0;
        while i < self.entries.len()
            invariant
                0 <= i <= self.entries.len(),
                self@.len() == self.entries.len(),
                str_views(out@) =~= key_seq(*self).take(i as int),
            decreases self.entries.len() - i,
        {
            let k = self.entries[i].0.clone();
            assert(k@ == key_seq(*self)[i as int]);
            let ghost prev = out@;
            out.push(k);
            proof {
                assert(str_views(prev).len() == prev.len());
                assert(prev.len() == i);
                assert(out@ == prev.push(out@[i as int]));
                assert forall|j: int| 0 <= j < out@.len() implies str_views(out@)[j] == key_seq(
                    *self,
                ).take(i + 1 as int)[j] by {
                    assert(str_views(out@)[j] == out@[j]@);
                    if j < i {
                        assert(out@[j] == prev[j]);
                        assert(prev[j]@ == str_views(prev)[j]);
                    } else {
                        assert(out@[j] == prev.push(out@[j as int]).last());
                    }
                }
                assert(str_views(out@) =~= key_seq(*self).take(i + 1 as int));
            }
            i += 1;
        }
        assert(key_seq(*self).take(self@.len() as int) =~= key_seq(*self));
        out
    }
}

} // verus!
