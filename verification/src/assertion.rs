//! Assertion envelopes: a label, a content-type tag, the encoded payload
//! bytes, and the content hash that binds the payload into a claim.

use vstd::prelude::*;
use crate::value::{Value, VData, vmodel};
use crate::cbor::{spec_be_bytes, spec_encode, spec_bounded};
use crate::codec::{actions_wire, actions_from};
use crate::actions::Actions;
use crate::Error;

verus! {

/// One step of the rolling binding hash: mix one byte in.
pub open spec fn spec_hash_step(h: u64, b: u8) -> u64 {
    ((((h ^ (b as u64)) as int) * 0x100000001b3) % 0x1_0000_0000_0000_0000) as u64
}

/// The rolling binding hash of a byte sequence.
pub open spec fn spec_hash64(s: Seq<u8>) -> u64
    decreases s.len(),
{
    if s.len() == 0 {
        0xcbf29ce484222325u64
    } else {
        spec_hash_step(spec_hash64(s.drop_last()), s.last())
    }
}

/// The binding hash of a byte sequence: the rolling hash, big-endian.
pub open spec fn spec_data_hash(s: Seq<u8>) -> Seq<u8> {
    spec_be_bytes(spec_hash64(s) as nat, 8)
}

/// Computes the binding hash of the given bytes. The hash is a pure
/// function of the bytes, so recomputing it over an unchanged payload
/// always reproduces it.
pub fn data_hash(data: &Vec<u8>) -> (r: Vec<u8>)
    ensures
        r@ == spec_data_hash(data@),
        r@.len() == 8,
{
    let mut h: u64 = 0xcbf29ce484222325;
    let mut i: usize = 0;
    while i < data.len()
        invariant
            i <= data@.len(),
            h == spec_hash64(data@.take(i as int)),
        decreases data@.len() - i,
    {
        h = (h ^ (data[i] as u64)).wrapping_mul(0x100000001b3);
        i = i + 1;
        proof {
            assert(data@.take(i as int).drop_last() =~= data@.take(i - 1));
            assert(data@.take(i as int).last() == data@[i - 1]);
        }
    }
    proof {
        assert(data@.take(data@.len() as int) =~= data@);
    }
    let mut out: Vec<u8> = Vec::new();
    crate::cbor::push_be_bytes(h, &mut out);
    proof {
        crate::cbor::lemma_be_bytes_len(h as nat, 8);
    }
    out
}

/// Mixing different bytes into the same running state yields different
/// states: the xor is injective in the byte, and multiplying by the odd
/// constant is a bijection of the 64-bit space.
pub proof fn lemma_hash_step_injective(h: u64, b1: u8, b2: u8)
    requires
        b1 != b2,
    ensures
        spec_hash_step(h, b1) != spec_hash_step(h, b2),
{
    let x = h ^ (b1 as u64);
    let y = h ^ (b2 as u64);
    assert(x != y) by (bit_vector)
        requires
            x == h ^ (b1 as u64),
            y == h ^ (b2 as u64),
            b1 != b2,
    ;
    assert((x * 0x100000001b3) % 0x1_0000_0000_0000_0000 != (y * 0x100000001b3)
        % 0x1_0000_0000_0000_0000) by (bit_vector)
        requires
            x != y,
    ;
}

/// Mixing the same byte into different running states keeps them
/// different: each step is a bijection of the state.
pub proof fn lemma_hash_step_state_injective(h1: u64, h2: u64, b: u8)
    requires
        h1 != h2,
    ensures
        spec_hash_step(h1, b) != spec_hash_step(h2, b),
{
    let x = h1 ^ (b as u64);
    let y = h2 ^ (b as u64);
    assert(x != y) by (bit_vector)
        requires
            x == h1 ^ (b as u64),
            y == h2 ^ (b as u64),
            h1 != h2,
    ;
    assert((x * 0x100000001b3) % 0x1_0000_0000_0000_0000 != (y * 0x100000001b3)
        % 0x1_0000_0000_0000_0000) by (bit_vector)
        requires
            x != y,
    ;
}

/// Flipping any single byte of a payload changes its binding hash: the
/// flipped byte changes the running state where it is mixed in, and
/// every later step keeps differing states different. A one-byte tamper
/// is therefore always caught by recomputing the binding.
pub proof fn lemma_hash_byte_flip(s: Seq<u8>, i: int, b: u8)
    requires
        0 <= i < s.len(),
        b != s[i],
    ensures
        spec_hash64(s.update(i, b)) != spec_hash64(s),
        spec_data_hash(s.update(i, b)) != spec_data_hash(s),
    decreases s.len(),
{
    let t = s.update(i, b);
    if i == s.len() - 1 {
        assert(t.drop_last() =~= s.drop_last());
        assert(t.last() == b);
        lemma_hash_step_injective(spec_hash64(s.drop_last()), b, s.last());
    } else {
        assert(t.drop_last() =~= s.drop_last().update(i, b));
        assert(t.last() == s.last());
        lemma_hash_byte_flip(s.drop_last(), i, b);
        lemma_hash_step_state_injective(
            spec_hash64(s.drop_last().update(i, b)),
            spec_hash64(s.drop_last()),
            s.last(),
        );
    }
    crate::cbor::lemma_pow256_vals();
    crate::cbor::lemma_be_roundtrip(spec_hash64(t) as nat, 8);
    crate::cbor::lemma_be_roundtrip(spec_hash64(s) as nat, 8);
}

/// How an assertion's payload bytes are encoded.
#[derive(Debug, Clone, Copy, PartialEq, Eq, Structural)]
pub enum ContentType {
    /// The self-describing binary form.
    Cbor,
    /// A JSON document.
    Json,
}

/// An assertion envelope: a labeled, typed payload with its binding
/// hash. Owned exclusively by the claim that contains it.
#[derive(Debug, PartialEq)]
pub struct Assertion {
    /// The assertion's label, version suffix included.
    pub label: String,
    /// How the payload bytes are encoded.
    pub content_type: ContentType,
    /// The encoded payload.
    pub data: Vec<u8>,
    /// The binding hash of the payload.
    pub hash: Vec<u8>,
}

/// A well-formed envelope carries the binding hash of its own payload.
pub open spec fn wf_assertion(a: Assertion) -> bool {
    a.hash@ == spec_data_hash(a.data@)
}

impl Assertion {
    /// Wraps binary payload bytes under a label, computing the binding
    /// hash.
    pub fn from_data_cbor(label: &str, data: &Vec<u8>) -> (r: Assertion)
        ensures
            r.label@ == label@,
            r.content_type == ContentType::Cbor,
            r.data@ == data@,
            wf_assertion(r),
    {
        let mut copy: Vec<u8> = Vec::new();
        copy.extend_from_slice(data.as_slice());
        proof {
            assert(copy@ =~= data@);
        }
        let hash = data_hash(&copy);
        Assertion {
            label: crate::actions::new_string(label),
            content_type: ContentType::Cbor,
            data: copy,
            hash,
        }
    }

    /// The assertion's label.
    pub fn label(&self) -> (r: &str)
        ensures
            r@ == self.label@,
    {
        self.label.as_str()
    }

    /// The media type of the payload encoding.
    pub fn mime_type(&self) -> (r: &str)
        ensures
            self.content_type == ContentType::Cbor ==> r@ == "application/cbor"@,
            self.content_type == ContentType::Json ==> r@ == "application/json"@,
    {
        match self.content_type {
            ContentType::Cbor => "application/cbor",
            ContentType::Json => "application/json",
        }
    }

    /// The encoded payload bytes.
    pub fn data(&self) -> (r: &Vec<u8>)
        ensures
            r == self.data,
    {
        &self.data
    }

    /// The binding hash of the payload.
    pub fn hash(&self) -> (r: &Vec<u8>)
        ensures
            r == self.hash,
    {
        &self.hash
    }
}

impl Actions {
    /// Encodes this assertion into an envelope under its versioned
    /// label, binary payload and binding hash included.
    pub fn to_assertion(&self) -> (r: Result<Assertion, Error>)
        ensures
            r matches Ok(a) && (a.label@ == "c2pa.actions.v2"@ && a.content_type
                == ContentType::Cbor && a.data@ == spec_encode(actions_wire(*self, false))
                && wf_assertion(a) && spec_bounded(actions_wire(*self, false))),
    {
        let data = self.to_bytes();
        let hash = data_hash(&data);
        Ok(
            Assertion {
                label: crate::actions::new_string("c2pa.actions.v2"),
                content_type: ContentType::Cbor,
                data,
                hash,
            },
        )
    }


    /// Wraps this assertion in an envelope and reads it straight back,
    /// provably succeeding with a model-equal value: the executable
    /// witness of the round-trip law, through the envelope. The
    /// deprecated instance identifiers must be absent, since the encoder
    /// never writes them.
    pub fn round_trip(&self) -> (y: Actions)
        requires
            crate::actions::wf_actions(*self),
            crate::codec::no_instances(*self),
        ensures
            crate::codec::actions_like(*self, y),
    {
        let assertion = match self.to_assertion() {
            Ok(a) => a,
            Err(_) => {
                // cannot occur: building the envelope never fails
                proof {
                    assert(false);
                }
                return Actions::new();
            },
        };
        proof {
            crate::codec::lemma_actions_from_self(*self);
            crate::cbor::lemma_decode_encode(actions_wire(*self, false), Seq::empty());
            assert(spec_encode(actions_wire(*self, false)) + Seq::<u8>::empty()
                =~= assertion.data@);
        }
        match Actions::from_assertion(&assertion) {
            Ok(y) => {
                proof {
                    crate::codec::lemma_actions_round_trip(*self, y);
                }
                y
            },
            Err(_) => {
                // cannot occur: the decoder accepts every encoder output
                proof {
                    assert(false);
                }
                Actions::new()
            },
        }
    }

    /// Decodes an Actions assertion back out of an envelope. Decoding
    /// succeeds exactly when the payload is one whole structured value
    /// that some well-formed assertion reads from, so an envelope the
    /// encoder built always decodes.
    pub fn from_assertion(assertion: &Assertion) -> (r: Result<Actions, Error>)
        ensures
            match r {
                Ok(x) => crate::actions::wf_actions(x) && (crate::cbor::spec_decode(
                    assertion.data@,
                ) matches Some(p) && p.1 == assertion.data@.len() && actions_from(p.0, x)),
                Err(e) => e == Error::Decode && !(crate::cbor::spec_decode(
                    assertion.data@,
                ) matches Some(p) && p.1 == assertion.data@.len() && (exists|x: Actions|
                    crate::actions::wf_actions(x) && actions_from(p.0, x))),
            },
    {
        Actions::from_bytes(&assertion.data)
    }
}

} // verus!
