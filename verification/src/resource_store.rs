//! The resource store: maps logical resource identifiers to byte
//! payloads, with identifiers unique per store, and the reference form
//! that names a resource either by embedded identifier or by external
//! URI plus content hash.

use vstd::prelude::*;

verus! {

/// The model of a store: identifier/payload pairs in insertion order.
pub type StoreModel = Seq<(Seq<char>, Seq<u8>)>;

/// Looks an identifier up: the payload of the first entry that matches.
pub open spec fn store_get(m: StoreModel, k: Seq<char>) -> Option<Seq<u8>>
    decreases m.len(),
{
    if m.len() == 0 {
        None
    } else if m[0].0 == k {
        Some(m[0].1)
    } else {
        store_get(m.drop_first(), k)
    }
}

/// Whether the identifiers of a store model are pairwise distinct.
pub open spec fn store_keys_unique(m: StoreModel) -> bool {
    forall|i: int, j: int| 0 <= i < j < m.len() ==> (#[trigger] m[i].0) != (#[trigger] m[j].0)
}

/// Replaces the payload under an existing identifier, or appends a new
/// entry.
pub open spec fn store_put(m: StoreModel, k: Seq<char>, v: Seq<u8>) -> StoreModel
    decreases m.len(),
{
    if m.len() == 0 {
        seq![(k, v)]
    } else if m[0].0 == k {
        seq![(m[0].0, v)] + m.drop_first()
    } else {
        seq![m[0]] + store_put(m.drop_first(), k, v)
    }
}

/// Looking up an identifier after putting it yields the payload just
/// put.
pub proof fn lemma_store_put_get(m: StoreModel, k: Seq<char>, v: Seq<u8>)
    ensures
        store_get(store_put(m, k, v), k) == Some(v),
    decreases m.len(),
{
    if m.len() != 0 && m[0].0 != k {
        lemma_store_put_get(m.drop_first(), k, v);
        assert((seq![m[0]] + store_put(m.drop_first(), k, v)).drop_first() =~= store_put(
            m.drop_first(),
            k,
            v,
        ));
    }
}

/// A store of resource payloads, addressed by unique identifiers.
#[derive(Debug, PartialEq)]
pub struct ResourceStore {
    /// The identifier/payload pairs, in insertion order.
    pub entries: Vec<(String, Vec<u8>)>,
}

/// The model of a store value.
pub open spec fn store_model(s: ResourceStore) -> StoreModel {
    entries_model(s.entries@)
}

/// The model of an entry list.
pub open spec fn entries_model(es: Seq<(String, Vec<u8>)>) -> StoreModel
    decreases es.len(),
{
    if es.len() == 0 {
        Seq::empty()
    } else {
        seq![(es[0].0@, es[0].1@)] + entries_model(es.drop_first())
    }
}

pub proof fn lemma_entries_model_len(es: Seq<(String, Vec<u8>)>)
    ensures
        entries_model(es).len() == es.len(),
    decreases es.len(),
{
    if es.len() != 0 {
        lemma_entries_model_len(es.drop_first());
    }
}

pub proof fn lemma_entries_model_index(es: Seq<(String, Vec<u8>)>, i: int)
    requires
        0 <= i < es.len(),
    ensures
        entries_model(es)[i] == (es[i].0@, es[i].1@),
    decreases es.len(),
{
    lemma_entries_model_len(es);
    if i != 0 {
        lemma_entries_model_index(es.drop_first(), i - 1);
    }
}

/// A well-formed store has pairwise-distinct identifiers.
pub open spec fn wf_store(s: ResourceStore) -> bool {
    store_keys_unique(store_model(s))
}

impl ResourceStore {
    /// Creates an empty store.
    pub fn new() -> (r: ResourceStore)
        ensures
            store_model(r) == Seq::<(Seq<char>, Seq<u8>)>::empty(),
            wf_store(r),
    {
        ResourceStore { entries: Vec::new() }
    }

    /// Stores a payload under an identifier, replacing any payload that
    /// identifier already named: identifiers stay unique.
    #[verifier::loop_isolation(false)]
    pub fn put(&mut self, identifier: &str, bytes: Vec<u8>)
        ensures
            store_model(*final(self)) == store_put(store_model(*old(self)), identifier@, bytes@),
            wf_store(*old(self)) ==> wf_store(*final(self)),
    {
        let kc = crate::strutil::str_chars(identifier);
        let ghost bv = bytes@;
        let ghost old_entries = self.entries@;
        let n = self.entries.len();
        let mut i: usize = 0;
        while i < n
            invariant
                n == self.entries@.len(),
                self.entries@ == old_entries,
                kc@ == identifier@,
                i <= n,
                forall|j: int| 0 <= j < i ==> (#[trigger] self.entries@[j]).0@ != identifier@,
            decreases n - i,
        {
            if crate::strutil::chars_eq_str(&kc, self.entries[i].0.as_str()) {
                let old_pair = self.entries.remove(i);
                self.entries.insert(i, (old_pair.0, bytes));
                proof {
                    lemma_entries_model_len(old_entries);
                    assert forall|j: int| 0 <= j < i implies (#[trigger] entries_model(
                        old_entries,
                    )[j]).0 != identifier@ by {
                        lemma_entries_model_index(old_entries, j);
                    }
                    lemma_entries_model_index(old_entries, i as int);
                    lemma_store_put_at(entries_model(old_entries), identifier@, bytes@, i as int);
                    assert(self.entries@ =~= old_entries.update(
                        i as int,
                        (old_pair.0, self.entries@[i as int].1),
                    ));
                    lemma_entries_model_update(
                        old_entries,
                        i as int,
                        old_pair.0,
                        self.entries@[i as int].1,
                    );
                    assert(entries_model(old_entries).update(
                        i as int,
                        (old_pair.0@, bv),
                    ) =~= entries_model(old_entries).update(
                        i as int,
                        (entries_model(old_entries)[i as int].0, bv),
                    ));
                    assert(self.entries@[i as int].1@ == bv);
                    if wf_store(*old(self)) {
                        lemma_store_put_unique(entries_model(old_entries), identifier@, bytes@);
                    }
                }
                return ;
            }
            i = i + 1;
        }
        let ghost before_push = self.entries@;
        self.entries.push((crate::actions::new_string(identifier), bytes));
        proof {
            lemma_entries_model_snoc(before_push, self.entries@.last().0, self.entries@.last().1);
            assert(self.entries@ =~= before_push.push(self.entries@.last()));
            lemma_entries_model_len(before_push);
            assert forall|j: int| 0 <= j < entries_model(before_push).len() implies (
            #[trigger] entries_model(before_push)[j]).0 != identifier@ by {
                lemma_entries_model_index(before_push, j);
            }
            lemma_store_put_append(entries_model(before_push), identifier@, bytes@);
            if wf_store(*old(self)) {
                lemma_store_put_unique(entries_model(before_push), identifier@, bytes@);
            }
        }
    }

    /// The payload an identifier names, if any.
    #[verifier::loop_isolation(false)]
    pub fn get_stream(&self, identifier: &str) -> (r: Option<&Vec<u8>>)
        ensures
            match r {
                Some(b) => store_get(store_model(*self), identifier@) == Some(b@),
                None => store_get(store_model(*self), identifier@) is None,
            },
    {
        let kc = crate::strutil::str_chars(identifier);
        let mut i: usize = 0;
        while i < self.entries.len()
            invariant
                kc@ == identifier@,
                i <= self.entries@.len(),
                forall|j: int| 0 <= j < i ==> (#[trigger] self.entries@[j]).0@ != identifier@,
            decreases self.entries@.len() - i,
        {
            if crate::strutil::chars_eq_str(&kc, self.entries[i].0.as_str()) {
                proof {
                    lemma_entries_model_len(self.entries@);
                    assert forall|j: int| 0 <= j < i implies (#[trigger] entries_model(
                        self.entries@,
                    )[j]).0 != identifier@ by {
                        lemma_entries_model_index(self.entries@, j);
                    }
                    lemma_entries_model_index(self.entries@, i as int);
                    lemma_store_get_at(entries_model(self.entries@), identifier@, i as int);
                }
                return Some(&self.entries[i].1);
            }
            i = i + 1;
        }
        proof {
            lemma_entries_model_len(self.entries@);
            assert forall|j: int| 0 <= j < entries_model(self.entries@).len() implies (
            #[trigger] entries_model(self.entries@)[j]).0 != identifier@ by {
                lemma_entries_model_index(self.entries@, j);
            }
            lemma_store_get_none(entries_model(self.entries@), identifier@);
        }
        None
    }
}

proof fn lemma_store_get_none(m: StoreModel, k: Seq<char>)
    requires
        forall|j: int| 0 <= j < m.len() ==> (#[trigger] m[j]).0 != k,
    ensures
        store_get(m, k) is None,
    decreases m.len(),
{
    if m.len() != 0 {
        assert(forall|j: int| 0 <= j < m.drop_first().len() ==> m.drop_first()[j] == m[j + 1]);
        lemma_store_get_none(m.drop_first(), k);
    }
}

proof fn lemma_store_get_at(m: StoreModel, k: Seq<char>, i: int)
    requires
        0 <= i < m.len(),
        m[i].0 == k,
        forall|j: int| 0 <= j < i ==> (#[trigger] m[j]).0 != k,
    ensures
        store_get(m, k) == Some(m[i].1),
    decreases i,
{
    if i > 0 {
        assert(forall|j: int| 0 <= j < m.drop_first().len() ==> m.drop_first()[j] == m[j + 1]);
        lemma_store_get_at(m.drop_first(), k, i - 1);
    }
}

proof fn lemma_store_put_at(m: StoreModel, k: Seq<char>, v: Seq<u8>, i: int)
    requires
        0 <= i < m.len(),
        m[i].0 == k,
        forall|j: int| 0 <= j < i ==> (#[trigger] m[j]).0 != k,
    ensures
        store_put(m, k, v) == m.update(i, (m[i].0, v)),
    decreases i,
{
    if i == 0 {
        assert(store_put(m, k, v) =~= m.update(0, (m[0].0, v)));
    } else {
        assert(forall|j: int| 0 <= j < m.drop_first().len() ==> m.drop_first()[j] == m[j + 1]);
        lemma_store_put_at(m.drop_first(), k, v, i - 1);
        assert(store_put(m, k, v) =~= m.update(i, (m[i].0, v)));
    }
}

proof fn lemma_store_put_append(m: StoreModel, k: Seq<char>, v: Seq<u8>)
    requires
        forall|j: int| 0 <= j < m.len() ==> (#[trigger] m[j]).0 != k,
    ensures
        store_put(m, k, v) == m.push((k, v)),
    decreases m.len(),
{
    if m.len() == 0 {
        assert(store_put(m, k, v) =~= m.push((k, v)));
    } else {
        assert(forall|j: int| 0 <= j < m.drop_first().len() ==> m.drop_first()[j] == m[j + 1]);
        lemma_store_put_append(m.drop_first(), k, v);
        assert(store_put(m, k, v) =~= m.push((k, v)));
    }
}

proof fn lemma_entries_model_snoc(es: Seq<(String, Vec<u8>)>, k: String, v: Vec<u8>)
    ensures
        entries_model(es.push((k, v))) == entries_model(es).push((k@, v@)),
{
    lemma_entries_model_len(es);
    lemma_entries_model_len(es.push((k, v)));
    assert forall|i: int| 0 <= i < es.len() + 1 implies entries_model(es.push((k, v)))[i]
        == entries_model(es).push((k@, v@))[i] by {
        lemma_entries_model_index(es.push((k, v)), i);
        if i < es.len() {
            lemma_entries_model_index(es, i);
            assert(es.push((k, v))[i] == es[i]);
        }
    }
    assert(entries_model(es.push((k, v))) =~= entries_model(es).push((k@, v@)));
}

proof fn lemma_entries_model_update(es: Seq<(String, Vec<u8>)>, i: int, k: String, v: Vec<u8>)
    requires
        0 <= i < es.len(),
    ensures
        entries_model(es.update(i, (k, v))) == entries_model(es).update(i, (k@, v@)),
{
    lemma_entries_model_len(es);
    lemma_entries_model_len(es.update(i, (k, v)));
    assert forall|j: int| 0 <= j < es.len() implies entries_model(es.update(i, (k, v)))[j]
        == entries_model(es).update(i, (k@, v@))[j] by {
        lemma_entries_model_index(es.update(i, (k, v)), j);
        if j != i {
            lemma_entries_model_index(es, j);
        }
    }
    assert(entries_model(es.update(i, (k, v))) =~= entries_model(es).update(i, (k@, v@)));
}

/// Putting an identifier keeps identifiers unique.
proof fn lemma_store_put_unique(m: StoreModel, k: Seq<char>, v: Seq<u8>)
    requires
        store_keys_unique(m),
    ensures
        store_keys_unique(store_put(m, k, v)),
    decreases m.len(),
{
    if m.len() == 0 {
    } else if m[0].0 == k {
        let r = seq![(m[0].0, v)] + m.drop_first();
        assert forall|i: int, j: int| 0 <= i < j < r.len() implies (#[trigger] r[i].0)
            != (#[trigger] r[j].0) by {
            assert(m[i].0 == r[i].0 && m[j].0 == r[j].0);
        }
    } else {
        assert(store_keys_unique(m.drop_first())) by {
            assert(forall|i: int, j: int|
                0 <= i < j < m.drop_first().len() ==> m.drop_first()[i] == m[i + 1]
                    && m.drop_first()[j] == m[j + 1]);
        }
        lemma_store_put_unique(m.drop_first(), k, v);
        lemma_store_put_keys(m.drop_first(), k, v);
        let t = store_put(m.drop_first(), k, v);
        let r = seq![m[0]] + t;
        assert forall|i: int, j: int| 0 <= i < j < r.len() implies (#[trigger] r[i].0)
            != (#[trigger] r[j].0) by {
            if i == 0 {
                assert(r[j].0 == t[j - 1].0);
                if exists|x: int| 0 <= x < m.drop_first().len() && m.drop_first()[x].0 == t[j
                    - 1].0 {
                } else {
                    assert(t[j - 1].0 == k);
                }
            } else {
                assert(r[i].0 == t[i - 1].0 && r[j].0 == t[j - 1].0);
                assert(store_keys_unique(t));
            }
        }
    }
}

/// Every identifier of a put result is an original identifier or the
/// one put.
proof fn lemma_store_put_keys(m: StoreModel, k: Seq<char>, v: Seq<u8>)
    ensures
        forall|j: int|
            0 <= j < store_put(m, k, v).len() ==> ((#[trigger] store_put(m, k, v)[j].0) == k
                || exists|x: int| 0 <= x < m.len() && m[x].0 == store_put(m, k, v)[j].0),
    decreases m.len(),
{
    if m.len() == 0 {
    } else if m[0].0 == k {
        let r = seq![(m[0].0, v)] + m.drop_first();
        assert forall|j: int| 0 <= j < r.len() implies ((#[trigger] r[j].0) == k || exists|x: int|
            0 <= x < m.len() && m[x].0 == r[j].0) by {
            if j > 0 {
                assert(m[j].0 == r[j].0);
            }
        }
    } else {
        lemma_store_put_keys(m.drop_first(), k, v);
        let t = store_put(m.drop_first(), k, v);
        let r = seq![m[0]] + t;
        assert forall|j: int| 0 <= j < r.len() implies ((#[trigger] r[j].0) == k || exists|x: int|
            0 <= x < m.len() && m[x].0 == r[j].0) by {
            if j == 0 {
                assert(m[0].0 == r[0].0);
            } else {
                assert(r[j].0 == t[j - 1].0);
                if t[j - 1].0 != k {
                    let x = choose|x: int|
                        0 <= x < m.drop_first().len() && m.drop_first()[x].0 == t[j - 1].0;
                    assert(m[x + 1].0 == r[j].0);
                }
            }
        }
    }
}

/// A reference to a resource: either an external URI with the content
/// hash of what it names, or the identifier of an embedded resource.
#[derive(Debug, PartialEq)]
pub enum UriOrResource {
    /// An external URI and the binding hash of its content.
    Uri { url: String, hash: Vec<u8> },
    /// The identifier of a resource embedded in a store.
    Resource { identifier: String },
}

impl UriOrResource {
    /// Resolves an embedded reference against a store; an external URI
    /// resolves to nothing here, since fetching is outside the core.
    pub fn resolve<'a>(&self, store: &'a ResourceStore) -> (r: Option<&'a Vec<u8>>)
        ensures
            match self {
                UriOrResource::Resource { identifier } => match r {
                    Some(b) => store_get(store_model(*store), identifier@) == Some(b@),
                    None => store_get(store_model(*store), identifier@) is None,
                },
                UriOrResource::Uri { .. } => r is None,
            },
    {
        match self {
            UriOrResource::Resource { identifier } => store.get_stream(identifier.as_str()),
            UriOrResource::Uri { .. } => None,
        }
    }
}

} // verus!
