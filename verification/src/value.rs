//! Structured values: the self-describing binary data model that assertion
//! payloads are encoded in.
//!
//! `Value` is the executable form; `VData` is its mathematical model, with
//! text as character sequences and containers as sequences. A map is an
//! ordered list of key/value pairs: order is preserved exactly, which keeps
//! re-encoding deterministic.

use vstd::prelude::*;

verus! {

/// An executable structured value.
///
/// `Neg(n)` denotes the negative integer `-1 - n`. A `Map` keeps its
/// entries in insertion order.
#[derive(Debug, PartialEq)]
pub enum Value {
    Null,
    Bool(bool),
    UInt(u64),
    Neg(u64),
    Text(String),
    Bytes(Vec<u8>),
    Array(Vec<Value>),
    Dict(Vec<(String, Value)>),
}

/// The mathematical model of a structured value.
#[verifier::ext_equal]
pub enum VData {
    Null,
    Bool(bool),
    UInt(u64),
    Neg(u64),
    Text(Seq<char>),
    Bytes(Seq<u8>),
    Array(Seq<VData>),
    Dict(Seq<(Seq<char>, VData)>),
}

/// The model of an executable value.
pub open spec fn vmodel(v: Value) -> VData
    decreases v,
{
    match v {
        Value::Null => VData::Null,
        Value::Bool(b) => VData::Bool(b),
        Value::UInt(n) => VData::UInt(n),
        Value::Neg(n) => VData::Neg(n),
        Value::Text(s) => VData::Text(s@),
        Value::Bytes(b) => VData::Bytes(b@),
        Value::Array(a) => VData::Array(vseq_model(a@)),
        Value::Dict(m) => VData::Dict(vmap_model(m@)),
    }
}

/// The models of a sequence of executable values.
pub open spec fn vseq_model(s: Seq<Value>) -> Seq<VData>
    decreases s,
{
    if s.len() == 0 {
        Seq::empty()
    } else {
        seq![vmodel(s[0])] + vseq_model(s.drop_first())
    }
}

/// The models of a sequence of executable map entries.
pub open spec fn vmap_model(s: Seq<(String, Value)>) -> Seq<(Seq<char>, VData)>
    decreases s,
{
    if s.len() == 0 {
        Seq::empty()
    } else {
        seq![(s[0].0@, vmodel(s[0].1))] + vmap_model(s.drop_first())
    }
}

pub broadcast proof fn lemma_vseq_model_len(s: Seq<Value>)
    ensures
        #[trigger] vseq_model(s).len() == s.len(),
    decreases s,
{
    if s.len() != 0 {
        lemma_vseq_model_len(s.drop_first());
    }
}

pub broadcast proof fn lemma_vseq_model_index(s: Seq<Value>, i: int)
    requires
        0 <= i < s.len(),
    ensures
        #[trigger] vseq_model(s)[i] == vmodel(s[i]),
    decreases s,
{
    lemma_vseq_model_len(s);
    if i != 0 {
        lemma_vseq_model_index(s.drop_first(), i - 1);
    }
}

pub broadcast proof fn lemma_vmap_model_len(s: Seq<(String, Value)>)
    ensures
        #[trigger] vmap_model(s).len() == s.len(),
    decreases s,
{
    if s.len() != 0 {
        lemma_vmap_model_len(s.drop_first());
    }
}

pub broadcast proof fn lemma_vmap_model_index(s: Seq<(String, Value)>, i: int)
    requires
        0 <= i < s.len(),
    ensures
        #[trigger] vmap_model(s)[i] == (s[i].0@, vmodel(s[i].1)),
    decreases s,
{
    lemma_vmap_model_len(s);
    if i != 0 {
        lemma_vmap_model_index(s.drop_first(), i - 1);
    }
}

/// Appending an element appends its model.
pub proof fn lemma_vseq_model_push(s: Seq<Value>, x: Value)
    ensures
        vseq_model(s.push(x)) == vseq_model(s).push(vmodel(x)),
{
    lemma_vseq_model_len(s);
    lemma_vseq_model_len(s.push(x));
    assert forall|i: int| 0 <= i < s.len() + 1 implies vseq_model(s.push(x))[i] == vseq_model(
        s,
    ).push(vmodel(x))[i] by {
        lemma_vseq_model_index(s.push(x), i);
        if i < s.len() {
            lemma_vseq_model_index(s, i);
            assert(s.push(x)[i] == s[i]);
        }
    }
    assert(vseq_model(s.push(x)) =~= vseq_model(s).push(vmodel(x)));
}

/// Appending an entry appends its model.
pub proof fn lemma_vmap_model_push(s: Seq<(String, Value)>, k: String, x: Value)
    ensures
        vmap_model(s.push((k, x))) == vmap_model(s).push((k@, vmodel(x))),
{
    lemma_vmap_model_len(s);
    lemma_vmap_model_len(s.push((k, x)));
    assert forall|i: int| 0 <= i < s.len() + 1 implies vmap_model(s.push((k, x)))[i] == vmap_model(
        s,
    ).push((k@, vmodel(x)))[i] by {
        lemma_vmap_model_index(s.push((k, x)), i);
        if i < s.len() {
            lemma_vmap_model_index(s, i);
            assert(s.push((k, x))[i] == s[i]);
        }
    }
    assert(vmap_model(s.push((k, x))) =~= vmap_model(s).push((k@, vmodel(x))));
}

/// Looks a key up in a model map: the value of the first entry whose key
/// matches, if any.
pub open spec fn map_get(m: Seq<(Seq<char>, VData)>, k: Seq<char>) -> Option<VData>
    decreases m.len(),
{
    if m.len() == 0 {
        None
    } else if m[0].0 == k {
        Some(m[0].1)
    } else {
        map_get(m.drop_first(), k)
    }
}

/// Whether the keys of a model map are pairwise distinct.
pub open spec fn keys_unique(m: Seq<(Seq<char>, VData)>) -> bool {
    forall|i: int, j: int| 0 <= i < j < m.len() ==> (#[trigger] m[i].0) != (#[trigger] m[j].0)
}


impl Value {
    /// A deep copy with the same model.
    #[verifier::loop_isolation(false)]
    pub fn duplicate(&self) -> (r: Value)
        ensures
            vmodel(r) == vmodel(*self),
        decreases *self,
    {
        match self {
            Value::Null => Value::Null,
            Value::Bool(x) => Value::Bool(*x),
            Value::UInt(n) => Value::UInt(*n),
            Value::Neg(n) => Value::Neg(*n),
            Value::Text(s) => Value::Text(copy_string(s)),
            Value::Bytes(b) => {
                let mut out: Vec<u8> = Vec::new();
                out.extend_from_slice(b.as_slice());
                proof {
                    assert(out@ =~= b@);
                }
                Value::Bytes(out)
            },
            Value::Array(a) => {
                let mut out: Vec<Value> = Vec::new();
                let mut i: usize = 0;
                while i < a.len()
                    invariant
                        i <= a@.len(),
                        vseq_model(out@) == vseq_model(a@.take(i as int)),
                    decreases a@.len() - i,
                {
                    proof {
                        broadcast use vstd::std_specs::vec::axiom_vec_index_decreases;
                        assert(*self == Value::Array(*a));
                        assert(decreases_to!(*self => *a));
                        assert(decreases_to!(*a => a@[i as int]));
                    }
                    let c = a[i].duplicate();
                    proof {
                        lemma_vseq_model_push(out@, c);
                        lemma_vseq_model_push(a@.take(i as int), a@[i as int]);
                        assert(a@.take(i + 1) =~= a@.take(i as int).push(a@[i as int]));
                    }
                    out.push(c);
                    i = i + 1;
                }
                proof {
                    assert(a@.take(a@.len() as int) =~= a@);
                }
                Value::Array(out)
            },
            Value::Dict(m) => {
                let mut out: Vec<(String, Value)> = Vec::new();
                let mut i: usize = 0;
                while i < m.len()
                    invariant
                        i <= m@.len(),
                        vmap_model(out@) == vmap_model(m@.take(i as int)),
                    decreases m@.len() - i,
                {
                    proof {
                        broadcast use vstd::std_specs::vec::axiom_vec_index_decreases;
                        assert(*self == Value::Dict(*m));
                        assert(decreases_to!(*self => *m));
                        assert(decreases_to!(*m => m@[i as int]));
                        assert(decreases_to!(m@[i as int] => m@[i as int].1));
                    }
                    let k = copy_string(&m[i].0);
                    let c = m[i].1.duplicate();
                    proof {
                        lemma_vmap_model_push(out@, k, c);
                        lemma_vmap_model_push(m@.take(i as int), m@[i as int].0, m@[i as int].1);
                        assert(m@.take(i + 1) =~= m@.take(i as int).push(m@[i as int]));
                    }
                    out.push((k, c));
                    i = i + 1;
                }
                proof {
                    assert(m@.take(m@.len() as int) =~= m@);
                }
                Value::Dict(out)
            },
        }
    }
}

/// An owned copy of a string with the same characters.
pub fn copy_string(s: &String) -> (r: String)
    ensures
        r@ == s@,
{
    let chars = crate::strutil::str_chars(s.as_str());
    crate::strutil::chars_to_string(&chars)
}

} // verus!
