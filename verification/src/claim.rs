//! Claim assembly and signing: the signable unit that aggregates
//! assertion envelopes under a claim generator, serialized
//! deterministically, and the pluggable signing capability that produces
//! a detached signature over the claim bytes.

use vstd::prelude::*;
use crate::value::{Value, VData, vmodel, vseq_model};
use crate::cbor::{spec_encode, spec_bounded, spec_header};
use crate::assertion::{Assertion, ContentType, wf_assertion, spec_data_hash};
use crate::actions::{Action, Actions, new_string, redactions_have_reasons};
use crate::Error;

verus! {

/// A reference to a prior asset this one derives from, optionally
/// carrying that asset's own nested signed manifest.
#[derive(Debug, PartialEq)]
pub struct Ingredient {
    /// A human-readable title for the prior asset.
    pub title: String,
    /// The prior asset's media type.
    pub format: String,
    /// How this asset relates to the prior one, such as `parentOf` or
    /// `componentOf`.
    pub relationship: String,
    /// The prior asset's own signed manifest, when available. Absent and
    /// empty are different things and stay different on the wire.
    pub manifest: Option<Vec<u8>>,
}

/// The wire form of one ingredient reference: a fixed four-entry map,
/// with an absent nested manifest encoded as null.
pub open spec fn ingredient_wire(i: Ingredient) -> VData {
    VData::Dict(
        seq![
            ("format"@, VData::Text(i.format@)),
            (
                "manifest"@,
                match i.manifest {
                    Some(b) => VData::Bytes(b@),
                    None => VData::Null,
                },
            ),
            ("relationship"@, VData::Text(i.relationship@)),
            ("title"@, VData::Text(i.title@)),
        ],
    )
}

/// The wire forms of a list of ingredient references.
pub open spec fn ingredients_wire_seq(s: Seq<Ingredient>) -> Seq<VData>
    decreases s.len(),
{
    if s.len() == 0 {
        Seq::empty()
    } else {
        seq![ingredient_wire(s[0])] + ingredients_wire_seq(s.drop_first())
    }
}

pub proof fn lemma_ingredients_wire_seq_len(s: Seq<Ingredient>)
    ensures
        ingredients_wire_seq(s).len() == s.len(),
    decreases s.len(),
{
    if s.len() != 0 {
        lemma_ingredients_wire_seq_len(s.drop_first());
    }
}

pub proof fn lemma_ingredients_wire_seq_index(s: Seq<Ingredient>, i: int)
    requires
        0 <= i < s.len(),
    ensures
        ingredients_wire_seq(s)[i] == ingredient_wire(s[i]),
    decreases s.len(),
{
    lemma_ingredients_wire_seq_len(s);
    if i != 0 {
        lemma_ingredients_wire_seq_index(s.drop_first(), i - 1);
    }
}

proof fn lemma_ingredients_wire_seq_snoc(s: Seq<Ingredient>, e: Ingredient)
    ensures
        ingredients_wire_seq(s.push(e)) == ingredients_wire_seq(s).push(ingredient_wire(e)),
{
    lemma_ingredients_wire_seq_len(s);
    lemma_ingredients_wire_seq_len(s.push(e));
    assert forall|i: int| 0 <= i < s.len() + 1 implies ingredients_wire_seq(s.push(e))[i]
        == ingredients_wire_seq(s).push(ingredient_wire(e))[i] by {
        lemma_ingredients_wire_seq_index(s.push(e), i);
        if i < s.len() {
            lemma_ingredients_wire_seq_index(s, i);
            assert(s.push(e)[i] == s[i]);
        }
    }
    assert(ingredients_wire_seq(s.push(e)) =~= ingredients_wire_seq(s).push(ingredient_wire(e)));
}

/// The signable unit: a claim generator identity, the assertion
/// envelopes bound into this claim, and the ingredient references of
/// the prior assets it derives from. Once serialized for signing, the
/// byte sequence is fully deterministic, so re-encoding the same logical
/// content yields identical bytes.
#[derive(Debug, PartialEq)]
pub struct Claim {
    /// The identity of the software that built this claim.
    pub claim_generator: String,
    /// The assertion envelopes, in the order they were added.
    pub assertions: Vec<Assertion>,
    /// The ingredient references, in the order they were added.
    pub ingredients: Vec<Ingredient>,
}

/// Every envelope of the claim carries the binding hash of its own
/// payload.
pub open spec fn wf_claim(c: Claim) -> bool {
    forall|i: int| 0 <= i < c.assertions@.len() ==> wf_assertion(#[trigger] c.assertions@[i])
}

/// The wire form of one assertion envelope inside a claim: a fixed
/// three-entry map.
pub open spec fn assertion_entry_wire(a: Assertion) -> VData {
    VData::Dict(
        seq![
            ("data"@, VData::Bytes(a.data@)),
            ("hash"@, VData::Bytes(a.hash@)),
            ("label"@, VData::Text(a.label@)),
        ],
    )
}

/// The wire forms of a list of envelopes.
pub open spec fn assertions_wire_seq(s: Seq<Assertion>) -> Seq<VData>
    decreases s.len(),
{
    if s.len() == 0 {
        Seq::empty()
    } else {
        seq![assertion_entry_wire(s[0])] + assertions_wire_seq(s.drop_first())
    }
}

/// The wire form of a claim: a fixed three-entry map.
pub open spec fn claim_wire(c: Claim) -> VData {
    VData::Dict(
        seq![
            ("assertions"@, VData::Array(assertions_wire_seq(c.assertions@))),
            ("generator"@, VData::Text(c.claim_generator@)),
            ("ingredients"@, VData::Array(ingredients_wire_seq(c.ingredients@))),
        ],
    )
}

/// The wire form of a signed envelope: the claim bytes and the detached
/// signature over exactly those bytes.
pub open spec fn signed_wire(claim_bytes: Seq<u8>, signature: Seq<u8>) -> VData {
    VData::Dict(
        seq![("claim"@, VData::Bytes(claim_bytes)), ("signature"@, VData::Bytes(signature))],
    )
}

pub proof fn lemma_assertions_wire_seq_len(s: Seq<Assertion>)
    ensures
        assertions_wire_seq(s).len() == s.len(),
    decreases s.len(),
{
    if s.len() != 0 {
        lemma_assertions_wire_seq_len(s.drop_first());
    }
}

pub proof fn lemma_assertions_wire_seq_index(s: Seq<Assertion>, i: int)
    requires
        0 <= i < s.len(),
    ensures
        assertions_wire_seq(s)[i] == assertion_entry_wire(s[i]),
    decreases s.len(),
{
    lemma_assertions_wire_seq_len(s);
    if i != 0 {
        lemma_assertions_wire_seq_index(s.drop_first(), i - 1);
    }
}

proof fn lemma_assertions_wire_seq_snoc(s: Seq<Assertion>, e: Assertion)
    ensures
        assertions_wire_seq(s.push(e)) == assertions_wire_seq(s).push(assertion_entry_wire(e)),
{
    lemma_assertions_wire_seq_len(s);
    lemma_assertions_wire_seq_len(s.push(e));
    assert forall|i: int| 0 <= i < s.len() + 1 implies assertions_wire_seq(s.push(e))[i]
        == assertions_wire_seq(s).push(assertion_entry_wire(e))[i] by {
        lemma_assertions_wire_seq_index(s.push(e), i);
        if i < s.len() {
            lemma_assertions_wire_seq_index(s, i);
            assert(s.push(e)[i] == s[i]);
        }
    }
    assert(assertions_wire_seq(s.push(e)) =~= assertions_wire_seq(s).push(
        assertion_entry_wire(e),
    ));
}

impl Claim {
    /// Creates an empty claim under the given generator identity.
    pub fn new(claim_generator: &str) -> (r: Claim)
        ensures
            r.claim_generator@ == claim_generator@,
            r.assertions@.len() == 0,
            r.ingredients@.len() == 0,
            wf_claim(r),
    {
        Claim {
            claim_generator: new_string(claim_generator),
            assertions: Vec::new(),
            ingredients: Vec::new(),
        }
    }

    /// Adds an ingredient reference.
    pub fn add_ingredient(&mut self, ingredient: Ingredient)
        ensures
            *final(self) == (Claim { ingredients: final(self).ingredients, ..*old(self) }),
            final(self).ingredients@ == old(self).ingredients@.push(ingredient),
    {
        self.ingredients.push(ingredient);
    }

    /// Adds an already-built envelope.
    pub fn add_assertion(&mut self, assertion: Assertion)
        ensures
            *final(self) == (Claim { assertions: final(self).assertions, ..*old(self) }),
            final(self).assertions@ == old(self).assertions@.push(assertion),
    {
        self.assertions.push(assertion);
    }

    /// Encodes, hashes and adds an Actions assertion, validating its
    /// schema first: an action that denotes a redaction must carry a
    /// reason, related sub-actions included, or the whole addition is
    /// rejected with a schema error and the claim is left unchanged.
    pub fn add_actions_assertion(&mut self, actions: &Actions) -> (r: Result<(), Error>)
        ensures
            match r {
                Ok(_) => redactions_have_reasons(*actions) && *final(self) == (Claim {
                    assertions: final(self).assertions,
                    ..*old(self)
                }) && final(self).assertions@.len() == old(self).assertions@.len()
                    + 1 && final(self).assertions@.subrange(
                    0,
                    old(self).assertions@.len() as int,
                ) == old(self).assertions@ && ({
                    let a = final(self).assertions@.last();
                    &&& a.label@ == "c2pa.actions.v2"@
                    &&& a.content_type == ContentType::Cbor
                    &&& a.data@ == spec_encode(crate::codec::actions_wire(*actions, false))
                    &&& wf_assertion(a)
                }),
                Err(e) => e == Error::Schema && !redactions_have_reasons(*actions) && *final(self)
                    == *old(self),
            },
    {
        let n = actions.actions.len();
        let mut i: usize = 0;
        while i < n
            invariant
                n == actions.actions@.len(),
                i <= n,
                forall|j: int|
                    0 <= j < i ==> crate::actions::action_redaction_ok(
                        #[trigger] actions.actions@[j],
                    ),
            decreases n - i,
        {
            if !check_action_redactions(&actions.actions[i]) {
                return Err(Error::Schema);
            }
            i = i + 1;
        }
        let ghost old_assertions = self.assertions@;
        match actions.to_assertion() {
            Ok(a) => {
                self.assertions.push(a);
                proof {
                    assert(self.assertions@.subrange(0, old_assertions.len() as int)
                        =~= old_assertions);
                }
                Ok(())
            },
            Err(_) => {
                // to_assertion always succeeds
                Err(Error::Schema)
            },
        }
    }

    /// Serializes the claim deterministically into the byte buffer that
    /// a signer signs.
    pub fn to_claim_bytes(&self) -> (r: Vec<u8>)
        ensures
            r@ == spec_encode(claim_wire(*self)),
            spec_bounded(claim_wire(*self)),
    {
        let mut av: Vec<Value> = Vec::new();
        let mut i: usize = 0;
        while i < self.assertions.len()
            invariant
                i <= self.assertions@.len(),
                vseq_model(av@) == assertions_wire_seq(self.assertions@.take(i as int)),
            decreases self.assertions@.len() - i,
        {
            let a = &self.assertions[i];
            let mut es: Vec<(String, Value)> = Vec::new();
            let mut data_copy: Vec<u8> = Vec::new();
            data_copy.extend_from_slice(a.data.as_slice());
            let mut hash_copy: Vec<u8> = Vec::new();
            hash_copy.extend_from_slice(a.hash.as_slice());
            proof {
                assert(data_copy@ =~= a.data@);
                assert(hash_copy@ =~= a.hash@);
            }
            es.push((new_string("data"), Value::Bytes(data_copy)));
            es.push((new_string("hash"), Value::Bytes(hash_copy)));
            es.push((new_string("label"), Value::Text(crate::value::copy_string(&a.label))));
            let entry = Value::Dict(es);
            proof {
                let m = es@;
                crate::value::lemma_vmap_model_len(m);
                crate::value::lemma_vmap_model_index(m, 0);
                crate::value::lemma_vmap_model_index(m, 1);
                crate::value::lemma_vmap_model_index(m, 2);
                assert(crate::value::vmap_model(m) =~= seq![
                    ("data"@, VData::Bytes(a.data@)),
                    ("hash"@, VData::Bytes(a.hash@)),
                    ("label"@, VData::Text(a.label@)),
                ]);
                assert(vmodel(entry) == assertion_entry_wire(*a));
                crate::value::lemma_vseq_model_push(av@, entry);
                lemma_assertions_wire_seq_snoc(
                    self.assertions@.take(i as int),
                    self.assertions@[i as int],
                );
                assert(self.assertions@.take(i + 1) =~= self.assertions@.take(i as int).push(
                    self.assertions@[i as int],
                ));
            }
            av.push(entry);
            i = i + 1;
        }
        proof {
            assert(self.assertions@.take(self.assertions@.len() as int) =~= self.assertions@);
        }
        let mut iv: Vec<Value> = Vec::new();
        let mut i: usize = 0;
        while i < self.ingredients.len()
            invariant
                i <= self.ingredients@.len(),
                vseq_model(iv@) == ingredients_wire_seq(self.ingredients@.take(i as int)),
            decreases self.ingredients@.len() - i,
        {
            let ing = &self.ingredients[i];
            let mut es: Vec<(String, Value)> = Vec::new();
            es.push((new_string("format"), Value::Text(crate::value::copy_string(&ing.format))));
            let manifest_value = match &ing.manifest {
                Some(b) => {
                    let mut copy: Vec<u8> = Vec::new();
                    copy.extend_from_slice(b.as_slice());
                    proof {
                        assert(copy@ =~= b@);
                    }
                    Value::Bytes(copy)
                },
                None => Value::Null,
            };
            es.push((new_string("manifest"), manifest_value));
            es.push((new_string("relationship"), Value::Text(crate::value::copy_string(
                &ing.relationship,
            ))));
            es.push((new_string("title"), Value::Text(crate::value::copy_string(&ing.title))));
            let entry = Value::Dict(es);
            proof {
                let m = es@;
                crate::value::lemma_vmap_model_len(m);
                crate::value::lemma_vmap_model_index(m, 0);
                crate::value::lemma_vmap_model_index(m, 1);
                crate::value::lemma_vmap_model_index(m, 2);
                crate::value::lemma_vmap_model_index(m, 3);
                assert(crate::value::vmap_model(m) =~= seq![
                    ("format"@, VData::Text(ing.format@)),
                    (
                        "manifest"@,
                        match ing.manifest {
                            Some(b) => VData::Bytes(b@),
                            None => VData::Null,
                        },
                    ),
                    ("relationship"@, VData::Text(ing.relationship@)),
                    ("title"@, VData::Text(ing.title@)),
                ]);
                assert(vmodel(entry) == ingredient_wire(*ing));
                crate::value::lemma_vseq_model_push(iv@, entry);
                lemma_ingredients_wire_seq_snoc(
                    self.ingredients@.take(i as int),
                    self.ingredients@[i as int],
                );
                assert(self.ingredients@.take(i + 1) =~= self.ingredients@.take(i as int).push(
                    self.ingredients@[i as int],
                ));
            }
            iv.push(entry);
            i = i + 1;
        }
        proof {
            assert(self.ingredients@.take(self.ingredients@.len() as int) =~= self.ingredients@);
        }
        let mut es: Vec<(String, Value)> = Vec::new();
        es.push((new_string("assertions"), Value::Array(av)));
        es.push((new_string("generator"), Value::Text(crate::value::copy_string(
            &self.claim_generator,
        ))));
        es.push((new_string("ingredients"), Value::Array(iv)));
        let v = Value::Dict(es);
        proof {
            let m = es@;
            crate::value::lemma_vmap_model_len(m);
            crate::value::lemma_vmap_model_index(m, 0);
            crate::value::lemma_vmap_model_index(m, 1);
            crate::value::lemma_vmap_model_index(m, 2);
            assert(crate::value::vmap_model(m) =~= seq![
                ("assertions"@, VData::Array(assertions_wire_seq(self.assertions@))),
                ("generator"@, VData::Text(self.claim_generator@)),
                ("ingredients"@, VData::Array(ingredients_wire_seq(self.ingredients@))),
            ]);
            assert(vmodel(v) == claim_wire(*self));
        }
        crate::cbor::encode_to_vec(&v)
    }
}


/// Whether this action, related sub-actions included, carries a reason
/// wherever its label denotes a redaction.
#[verifier::loop_isolation(false)]
fn check_action_redactions(a: &Action) -> (r: bool)
    ensures
        r == crate::actions::action_redaction_ok(*a),
    decreases *a,
{
    let chars = crate::strutil::str_chars(a.action());
    if crate::strutil::chars_eq_str(&chars, "c2pa.redacted") {
        match a.reason() {
            Some(_) => {},
            None => {
                return false;
            },
        }
    }
    match &a.related {
        Some(rel) => {
            let mut i: usize = 0;
            while i < rel.len()
                invariant
                    i <= rel@.len(),
                    forall|j: int|
                        0 <= j < i ==> crate::actions::action_redaction_ok(#[trigger] rel@[j]),
                decreases rel@.len() - i,
            {
                proof {
                    broadcast use vstd::std_specs::vec::axiom_vec_index_decreases;
                    assert(a.related == Some(*rel));
                    assert(decreases_to!(*a => a.related));
                    assert(decreases_to!(a.related => *rel));
                    assert(decreases_to!(*rel => rel@[i as int]));
                }
                if !check_action_redactions(&rel[i]) {
                    return false;
                }
                i = i + 1;
            }
            true
        },
        None => true,
    }
}


/// The envelope bytes before the claim-bytes region: they depend on the
/// claim bytes only through their length.
pub open spec fn signed_prefix(n: nat) -> Seq<u8> {
    spec_header(5, 2) + crate::cbor::spec_encode_text("claim"@) + spec_header(2, n)
}

/// The envelope bytes after the claim-bytes region.
pub open spec fn signed_suffix(sig: Seq<u8>) -> Seq<u8> {
    crate::cbor::spec_encode_text("signature"@) + spec_header(2, sig.len()) + sig
}

/// The signed envelope decomposes around the claim bytes, whose content
/// the surrounding bytes do not depend on.
pub proof fn lemma_signed_wire_split(cb: Seq<u8>, sig: Seq<u8>)
    ensures
        spec_encode(signed_wire(cb, sig)) == signed_prefix(cb.len()) + cb + signed_suffix(sig),
{
    let es = seq![("claim"@, VData::Bytes(cb)), ("signature"@, VData::Bytes(sig))];
    let e1 = es.drop_first();
    assert(signed_wire(cb, sig) == VData::Dict(es));
    assert(es[0] == ("claim"@, VData::Bytes(cb)));
    assert(e1 =~= seq![("signature"@, VData::Bytes(sig))]);
    assert(e1[0] == ("signature"@, VData::Bytes(sig)));
    assert(e1.drop_first() =~= Seq::<(Seq<char>, VData)>::empty());
    assert(crate::cbor::spec_encode_entries(e1.drop_first()) == Seq::<u8>::empty());
    assert(crate::cbor::spec_encode_entries(e1) == crate::cbor::spec_encode_text("signature"@)
        + spec_encode(VData::Bytes(sig)) + crate::cbor::spec_encode_entries(e1.drop_first()));
    assert(crate::cbor::spec_encode_entries(es) == crate::cbor::spec_encode_text("claim"@)
        + spec_encode(VData::Bytes(cb)) + crate::cbor::spec_encode_entries(e1));
    assert(spec_encode(VData::Bytes(cb)) == spec_header(2, cb.len()) + cb);
    assert(spec_encode(VData::Bytes(sig)) == spec_header(2, sig.len()) + sig);
    assert(spec_encode(signed_wire(cb, sig)) == spec_header(5, 2)
        + crate::cbor::spec_encode_entries(es));
    assert(spec_encode(signed_wire(cb, sig)) =~= signed_prefix(cb.len()) + cb + signed_suffix(
        sig,
    ));
}

/// The bytes of one assertion reference before its payload region:
/// they depend on the payload only through its length.
pub open spec fn entry_data_prefix(a: Assertion) -> Seq<u8> {
    spec_header(5, 3) + crate::cbor::spec_encode_text("data"@) + spec_header(2, a.data@.len())
}

/// The bytes of one assertion reference after its payload region.
pub open spec fn entry_data_suffix(a: Assertion) -> Seq<u8> {
    crate::cbor::spec_encode_text("hash"@) + spec_header(2, a.hash@.len()) + a.hash@
        + crate::cbor::spec_encode_text("label"@) + crate::cbor::spec_encode_text(a.label@)
}

/// One assertion reference's bytes decompose around its payload, whose
/// content the surrounding bytes do not depend on.
pub proof fn lemma_entry_wire_split(a: Assertion)
    ensures
        spec_encode(assertion_entry_wire(a)) == entry_data_prefix(a) + a.data@
            + entry_data_suffix(a),
{
    let entry_es = seq![
        ("data"@, VData::Bytes(a.data@)),
        ("hash"@, VData::Bytes(a.hash@)),
        ("label"@, VData::Text(a.label@)),
    ];
    let n1 = entry_es.drop_first();
    let n2 = n1.drop_first();
    assert(assertion_entry_wire(a) == VData::Dict(entry_es));
    assert(entry_es[0] == ("data"@, VData::Bytes(a.data@)));
    assert(n1 =~= seq![("hash"@, VData::Bytes(a.hash@)), ("label"@, VData::Text(a.label@))]);
    assert(n1[0] == ("hash"@, VData::Bytes(a.hash@)));
    assert(n2 =~= seq![("label"@, VData::Text(a.label@))]);
    assert(n2[0] == ("label"@, VData::Text(a.label@)));
    assert(n2.drop_first() =~= Seq::<(Seq<char>, VData)>::empty());
    assert(crate::cbor::spec_encode_entries(n2.drop_first()) == Seq::<u8>::empty());
    assert(crate::cbor::spec_encode_entries(n2) == crate::cbor::spec_encode_text("label"@)
        + spec_encode(VData::Text(a.label@)) + crate::cbor::spec_encode_entries(n2.drop_first()));
    assert(crate::cbor::spec_encode_entries(n1) == crate::cbor::spec_encode_text("hash"@)
        + spec_encode(VData::Bytes(a.hash@)) + crate::cbor::spec_encode_entries(n2));
    assert(crate::cbor::spec_encode_entries(entry_es) == crate::cbor::spec_encode_text("data"@)
        + spec_encode(VData::Bytes(a.data@)) + crate::cbor::spec_encode_entries(n1));
    assert(spec_encode(VData::Bytes(a.data@)) == spec_header(2, a.data@.len()) + a.data@);
    assert(spec_encode(VData::Bytes(a.hash@)) == spec_header(2, a.hash@.len()) + a.hash@);
    assert(spec_encode(VData::Text(a.label@)) == crate::cbor::spec_encode_text(a.label@));
    assert(spec_encode(assertion_entry_wire(a)) == spec_header(5, 3)
        + crate::cbor::spec_encode_entries(entry_es));
    assert(spec_encode(assertion_entry_wire(a)) =~= entry_data_prefix(a) + a.data@
        + entry_data_suffix(a));
}

/// The claim bytes before assertion `i`'s payload region: they depend
/// on that payload only through its length.
pub open spec fn claim_data_prefix(c: Claim, i: int) -> Seq<u8> {
    spec_header(5, 3) + crate::cbor::spec_encode_text("assertions"@) + spec_header(
        4,
        c.assertions@.len(),
    ) + crate::cbor::spec_encode_items(assertions_wire_seq(c.assertions@).take(i))
        + entry_data_prefix(c.assertions@[i])
}

/// The claim bytes after assertion `i`'s payload region.
pub open spec fn claim_data_suffix(c: Claim, i: int) -> Seq<u8> {
    entry_data_suffix(c.assertions@[i]) + crate::cbor::spec_encode_items(
        assertions_wire_seq(c.assertions@).skip(i + 1),
    ) + crate::cbor::spec_encode_text("generator"@) + crate::cbor::spec_encode_text(
        c.claim_generator@,
    ) + crate::cbor::spec_encode_text("ingredients"@) + spec_header(
        4,
        c.ingredients@.len(),
    ) + crate::cbor::spec_encode_items(ingredients_wire_seq(c.ingredients@))
}

/// The claim's bytes, laid out segment by segment with assertion `i`'s
/// whole reference in the middle.
#[verifier::rlimit(100)]
#[verifier::spinoff_prover]
proof fn lemma_claim_wire_flat(c: Claim, i: int)
    requires
        0 <= i < c.assertions@.len(),
    ensures
        ({
            let aws = assertions_wire_seq(c.assertions@);
            spec_encode(claim_wire(c)) == spec_header(5, 3) + crate::cbor::spec_encode_text(
                "assertions"@,
            ) + spec_header(4, c.assertions@.len()) + crate::cbor::spec_encode_items(aws.take(i))
                + spec_encode(aws[i]) + crate::cbor::spec_encode_items(aws.skip(i + 1))
                + crate::cbor::spec_encode_text("generator"@) + crate::cbor::spec_encode_text(
                c.claim_generator@,
            ) + crate::cbor::spec_encode_text("ingredients"@) + spec_header(
                4,
                c.ingredients@.len(),
            ) + crate::cbor::spec_encode_items(ingredients_wire_seq(c.ingredients@))
        }),
{
    let aws = assertions_wire_seq(c.assertions@);
    lemma_assertions_wire_seq_len(c.assertions@);
    crate::cbor::lemma_encode_items_split(aws, i);
    let top_es = seq![
        ("assertions"@, VData::Array(aws)),
        ("generator"@, VData::Text(c.claim_generator@)),
        ("ingredients"@, VData::Array(ingredients_wire_seq(c.ingredients@))),
    ];
    let t1 = top_es.drop_first();
    let t2 = t1.drop_first();
    assert(claim_wire(c) == VData::Dict(top_es));
    assert(top_es[0] == ("assertions"@, VData::Array(aws)));
    assert(t1 =~= seq![
        ("generator"@, VData::Text(c.claim_generator@)),
        ("ingredients"@, VData::Array(ingredients_wire_seq(c.ingredients@))),
    ]);
    assert(t1[0] == ("generator"@, VData::Text(c.claim_generator@)));
    assert(t2 =~= seq![("ingredients"@, VData::Array(ingredients_wire_seq(c.ingredients@)))]);
    assert(t2[0] == ("ingredients"@, VData::Array(ingredients_wire_seq(c.ingredients@))));
    assert(t2.drop_first() =~= Seq::<(Seq<char>, VData)>::empty());
    assert(crate::cbor::spec_encode_entries(t2.drop_first()) == Seq::<u8>::empty());
    assert(crate::cbor::spec_encode_entries(t2) == crate::cbor::spec_encode_text("ingredients"@)
        + spec_encode(VData::Array(ingredients_wire_seq(c.ingredients@)))
        + crate::cbor::spec_encode_entries(t2.drop_first()));
    assert(crate::cbor::spec_encode_entries(t1) == crate::cbor::spec_encode_text("generator"@)
        + spec_encode(VData::Text(c.claim_generator@)) + crate::cbor::spec_encode_entries(t2));
    assert(crate::cbor::spec_encode_entries(top_es) == crate::cbor::spec_encode_text(
        "assertions"@,
    ) + spec_encode(VData::Array(aws)) + crate::cbor::spec_encode_entries(t1));
    assert(spec_encode(VData::Array(aws)) == spec_header(4, aws.len())
        + crate::cbor::spec_encode_items(aws));
    assert(spec_encode(VData::Array(ingredients_wire_seq(c.ingredients@))) == spec_header(
        4,
        ingredients_wire_seq(c.ingredients@).len(),
    ) + crate::cbor::spec_encode_items(ingredients_wire_seq(c.ingredients@)));
    lemma_ingredients_wire_seq_len(c.ingredients@);
    assert(spec_encode(claim_wire(c)) == spec_header(5, 3) + crate::cbor::spec_encode_entries(
        top_es,
    ));
    assert(spec_encode(claim_wire(c)) =~= spec_header(5, 3) + crate::cbor::spec_encode_text(
        "assertions"@,
    ) + spec_header(4, c.assertions@.len()) + crate::cbor::spec_encode_items(aws.take(i))
        + spec_encode(aws[i]) + crate::cbor::spec_encode_items(aws.skip(i + 1))
        + crate::cbor::spec_encode_text("generator"@) + crate::cbor::spec_encode_text(
        c.claim_generator@,
    ) + crate::cbor::spec_encode_text("ingredients"@) + spec_header(4, c.ingredients@.len())
        + crate::cbor::spec_encode_items(ingredients_wire_seq(c.ingredients@)));
}

/// The claim's bytes decompose around any one assertion's payload,
/// whose content the surrounding bytes do not depend on.
#[verifier::rlimit(100)]
#[verifier::spinoff_prover]
pub proof fn lemma_claim_wire_split(c: Claim, i: int)
    requires
        0 <= i < c.assertions@.len(),
    ensures
        spec_encode(claim_wire(c)) == claim_data_prefix(c, i) + c.assertions@[i].data@
            + claim_data_suffix(c, i),
{
    let aws = assertions_wire_seq(c.assertions@);
    lemma_assertions_wire_seq_len(c.assertions@);
    lemma_assertions_wire_seq_index(c.assertions@, i);
    lemma_claim_wire_flat(c, i);
    lemma_entry_wire_split(c.assertions@[i]);
    let seg_front = spec_header(5, 3) + crate::cbor::spec_encode_text("assertions"@)
        + spec_header(4, c.assertions@.len());
    let seg_take = crate::cbor::spec_encode_items(aws.take(i));
    let seg_skip = crate::cbor::spec_encode_items(aws.skip(i + 1));
    let seg_rest = crate::cbor::spec_encode_text("generator"@) + crate::cbor::spec_encode_text(
        c.claim_generator@,
    ) + crate::cbor::spec_encode_text("ingredients"@) + spec_header(4, c.ingredients@.len())
        + crate::cbor::spec_encode_items(ingredients_wire_seq(c.ingredients@));
    let ep = entry_data_prefix(c.assertions@[i]);
    let es_ = entry_data_suffix(c.assertions@[i]);
    let d = c.assertions@[i].data@;
    assert(spec_encode(claim_wire(c)) =~= seg_front + seg_take + (ep + d + es_) + seg_skip
        + seg_rest);
    assert(seg_front + seg_take + (ep + d + es_) + seg_skip + seg_rest =~= (seg_front + seg_take
        + ep) + d + (es_ + seg_skip + seg_rest));
    assert(claim_data_prefix(c, i) =~= seg_front + seg_take + ep);
    assert(claim_data_suffix(c, i) =~= es_ + seg_skip + seg_rest);
}

/// Two claims that differ only in assertion `i`'s payload content share
/// the surrounding bytes of that payload's region.
pub proof fn lemma_claim_regions_agree(c: Claim, c2: Claim, i: int)
    requires
        0 <= i < c.assertions@.len(),
        c2.assertions@.len() == c.assertions@.len(),
        forall|j: int|
            0 <= j < c.assertions@.len() && j != i ==> c2.assertions@[j] == c.assertions@[j],
        c2.assertions@[i].label == c.assertions@[i].label,
        c2.assertions@[i].hash == c.assertions@[i].hash,
        c2.assertions@[i].data@.len() == c.assertions@[i].data@.len(),
        c2.claim_generator == c.claim_generator,
        c2.ingredients@ == c.ingredients@,
    ensures
        claim_data_prefix(c2, i) == claim_data_prefix(c, i),
        claim_data_suffix(c2, i) == claim_data_suffix(c, i),
{
    lemma_assertions_wire_seq_len(c.assertions@);
    lemma_assertions_wire_seq_len(c2.assertions@);
    assert(assertions_wire_seq(c2.assertions@).take(i) =~= assertions_wire_seq(
        c.assertions@,
    ).take(i)) by {
        assert forall|j: int| 0 <= j < i implies assertions_wire_seq(c2.assertions@)[j]
            == assertions_wire_seq(c.assertions@)[j] by {
            lemma_assertions_wire_seq_index(c2.assertions@, j);
            lemma_assertions_wire_seq_index(c.assertions@, j);
        }
    }
    assert(assertions_wire_seq(c2.assertions@).skip(i + 1) =~= assertions_wire_seq(
        c.assertions@,
    ).skip(i + 1)) by {
        assert forall|j: int|
            0 <= j < c.assertions@.len() - i - 1 implies #[trigger] assertions_wire_seq(
            c2.assertions@,
        ).skip(i + 1)[j] == assertions_wire_seq(c.assertions@).skip(i + 1)[j] by {
            lemma_assertions_wire_seq_index(c2.assertions@, i + 1 + j);
            lemma_assertions_wire_seq_index(c.assertions@, i + 1 + j);
        }
    }
}


/// Editing one assertion's payload content inside a signed envelope
/// edits exactly the payload's byte region: the envelopes of the two
/// claims share every byte outside it — the other assertions, the
/// stored hashes, the labels, the generator, the ingredients and the
/// signature included.
pub proof fn lemma_payload_edit_is_envelope_edit(c: Claim, c2: Claim, i: int, sig: Seq<u8>)
    requires
        0 <= i < c.assertions@.len(),
        c2.assertions@.len() == c.assertions@.len(),
        forall|j: int|
            0 <= j < c.assertions@.len() && j != i ==> c2.assertions@[j] == c.assertions@[j],
        c2.assertions@[i].label == c.assertions@[i].label,
        c2.assertions@[i].hash == c.assertions@[i].hash,
        c2.assertions@[i].data@.len() == c.assertions@[i].data@.len(),
        c2.claim_generator == c.claim_generator,
        c2.ingredients@ == c.ingredients@,
    ensures
        ({
            let pre = signed_prefix(spec_encode(claim_wire(c)).len()) + claim_data_prefix(c, i);
            let post = claim_data_suffix(c, i) + signed_suffix(sig);
            &&& spec_encode(signed_wire(spec_encode(claim_wire(c)), sig)) == pre
                + c.assertions@[i].data@ + post
            &&& spec_encode(signed_wire(spec_encode(claim_wire(c2)), sig)) == pre
                + c2.assertions@[i].data@ + post
        }),
{
    lemma_claim_wire_split(c, i);
    lemma_claim_wire_split(c2, i);
    lemma_claim_regions_agree(c, c2, i);
    let cb = spec_encode(claim_wire(c));
    let cb2 = spec_encode(claim_wire(c2));
    assert(cb2.len() == cb.len());
    lemma_signed_wire_split(cb, sig);
    lemma_signed_wire_split(cb2, sig);
    let sp = signed_prefix(cb.len());
    let ss = signed_suffix(sig);
    let cp = claim_data_prefix(c, i);
    let cs = claim_data_suffix(c, i);
    assert(sp + (cp + c.assertions@[i].data@ + cs) + ss =~= (sp + cp) + c.assertions@[i].data@ + (
    cs + ss));
    assert(sp + (cp + c2.assertions@[i].data@ + cs) + ss =~= (sp + cp) + c2.assertions@[i].data@
        + (cs + ss));
}

/// A pluggable signing capability: produces a detached signature over
/// the claim bytes. The library is agnostic to key storage and
/// algorithm; the signer is an injected dependency, and nothing is
/// assumed of what it returns.
pub trait Signer {
    /// A tag naming the signing algorithm.
    fn alg(&self) -> String;

    /// Signs the given bytes, or reports a failure.
    fn sign(&self, data: &Vec<u8>) -> Result<Vec<u8>, Error>;
}

/// A caller-supplied verification capability: checks a detached
/// signature over the claim bytes and answers whether the signing
/// credential is trusted.
pub trait SignatureVerifier {
    /// Whether `signature` is a valid signature over `data`.
    fn verify_signature(&self, data: &Vec<u8>, signature: &Vec<u8>) -> bool;

    /// Whether the signing credential meets the caller's trust policy.
    fn is_trusted(&self) -> bool;
}

/// The keyed tag of the built-in signer: the binding hash over the key,
/// a separator, and the data.
pub open spec fn spec_keyed_tag(key: Seq<u8>, data: Seq<u8>) -> Seq<u8> {
    spec_data_hash(key + seq![0u8] + data)
}

/// A synchronous, in-process signer for tests and development: its
/// signature is a keyed tag over the claim bytes, recomputable by a
/// holder of the same key.
#[derive(Debug, PartialEq)]
pub struct LocalSigner {
    /// The shared key.
    pub key: Vec<u8>,
}

impl LocalSigner {
    /// Creates a signer holding the given key.
    pub fn new(key: Vec<u8>) -> (r: LocalSigner)
        ensures
            r.key@ == key@,
    {
        LocalSigner { key }
    }

    /// The keyed tag over `data`.
    pub fn tag(&self, data: &Vec<u8>) -> (r: Vec<u8>)
        ensures
            r@ == spec_keyed_tag(self.key@, data@),
    {
        let mut buf: Vec<u8> = Vec::new();
        buf.extend_from_slice(self.key.as_slice());
        buf.push(0);
        buf.extend_from_slice(data.as_slice());
        proof {
            assert(buf@ =~= self.key@ + seq![0u8] + data@);
        }
        crate::assertion::data_hash(&buf)
    }

    /// Whether `signature` equals the keyed tag over `data`.
    pub fn check_tag(&self, data: &Vec<u8>, signature: &Vec<u8>) -> (r: bool)
        ensures
            r == (signature@ == spec_keyed_tag(self.key@, data@)),
    {
        let expected = self.tag(data);
        bytes_eq(&expected, signature)
    }
}

/// Whether two byte vectors hold the same bytes.
pub fn bytes_eq(a: &Vec<u8>, b: &Vec<u8>) -> (r: bool)
    ensures
        r == (a@ == b@),
{
    if a.len() != b.len() {
        proof {
            assert(a@ != b@);
        }
        return false;
    }
    let mut i: usize = 0;
    while i < a.len()
        invariant
            a@.len() == b@.len(),
            i <= a@.len(),
            forall|j: int| 0 <= j < i ==> a@[j] == b@[j],
        decreases a@.len() - i,
    {
        if a[i] != b[i] {
            return false;
        }
        i = i + 1;
    }
    proof {
        assert(a@ =~= b@);
    }
    true
}

impl Signer for LocalSigner {
    fn alg(&self) -> String {
        new_string("keyed-tag")
    }

    fn sign(&self, data: &Vec<u8>) -> Result<Vec<u8>, Error> {
        Ok(self.tag(data))
    }
}

impl SignatureVerifier for LocalSigner {
    fn verify_signature(&self, data: &Vec<u8>, signature: &Vec<u8>) -> bool {
        self.check_tag(data, signature)
    }

    fn is_trusted(&self) -> bool {
        true
    }
}

/// Serializes the claim, obtains a detached signature from the signer,
/// and emits the signed envelope. A signer failure aborts the pipeline:
/// no partial signed output is ever produced.
pub fn sign_claim<S: Signer>(claim: &Claim, signer: &S) -> (r: Result<Vec<u8>, Error>)
    ensures
        match r {
            Ok(out) => exists|sig: Seq<u8>|
                {
                    &&& sig.len() <= u64::MAX
                    &&& spec_bounded(#[trigger] signed_wire(spec_encode(claim_wire(*claim)), sig))
                    &&& out@ == spec_encode(signed_wire(spec_encode(claim_wire(*claim)), sig))
                },
            Err(e) => e == Error::Signer,
        },
{
    let claim_bytes = claim.to_claim_bytes();
    let signature = match signer.sign(&claim_bytes) {
        Ok(s) => s,
        Err(_) => {
            return Err(Error::Signer);
        },
    };
    let ghost sig_model = signature@;
    let siglen = signature.len();
    proof {
        assert(sig_model.len() == siglen);
    }
    let mut es: Vec<(String, Value)> = Vec::new();
    let mut cb_copy: Vec<u8> = Vec::new();
    cb_copy.extend_from_slice(claim_bytes.as_slice());
    proof {
        assert(cb_copy@ =~= claim_bytes@);
    }
    es.push((new_string("claim"), Value::Bytes(cb_copy)));
    es.push((new_string("signature"), Value::Bytes(signature)));
    let v = Value::Dict(es);
    proof {
        let m = es@;
        crate::value::lemma_vmap_model_len(m);
        crate::value::lemma_vmap_model_index(m, 0);
        crate::value::lemma_vmap_model_index(m, 1);
        assert(crate::value::vmap_model(m) =~= seq![
            ("claim"@, VData::Bytes(spec_encode(claim_wire(*claim)))),
            ("signature"@, VData::Bytes(sig_model)),
        ]);
        assert(vmodel(v) == signed_wire(spec_encode(claim_wire(*claim)), sig_model));
    }
    Ok(crate::cbor::encode_to_vec(&v))
}

} // verus!
