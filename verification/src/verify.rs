//! The verification engine: re-parses a signed envelope, recomputes the
//! binding hashes, checks the signature and the trust decision, and
//! reports a structured validation outcome.
//!
//! Verification runs in stages. Only structurally unparseable input is
//! fatal and stops before `Parsed`; every later finding is recorded as a
//! validation status and the engine keeps going, so a caller receives a
//! complete diagnostic rather than the first failure. Statuses are only
//! ever appended within a pass.

use vstd::prelude::*;
use crate::value::{Value, VData, vmodel, vmap_model, vseq_model};
use crate::cbor::spec_decode;
use crate::assertion::{Assertion, ContentType, spec_data_hash};
use crate::claim::{
    Claim, Ingredient, SignatureVerifier, assertion_entry_wire, assertions_wire_seq,
    ingredient_wire, ingredients_wire_seq, claim_wire, signed_wire, signed_prefix,
    claim_data_prefix, lemma_payload_edit_is_envelope_edit, wf_claim,
};
use crate::cbor::{spec_encode, spec_bounded};
use crate::actions::new_string;

verus! {

/// The stages of a verification pass, in order.
#[derive(Debug, Clone, Copy, PartialEq, Eq, Structural)]
pub enum EngineState {
    Unparsed,
    Parsed,
    HashesRecomputed,
    SignatureChecked,
    TrustEvaluated,
    Done,
}

/// One validation finding: a status code, a human-readable explanation,
/// and the URI of the assertion it concerns (empty when it concerns the
/// claim as a whole). Never part of the signed content.
#[derive(Debug, PartialEq)]
pub struct ValidationStatus {
    /// The status code.
    pub code: String,
    /// A human-readable explanation.
    pub explanation: String,
    /// The label of the assertion the finding concerns, or empty.
    pub url: String,
}

/// The model of one status: its three strings.
pub open spec fn status_model(s: ValidationStatus) -> (Seq<char>, Seq<char>, Seq<char>) {
    (s.code@, s.explanation@, s.url@)
}

/// The models of a status list.
pub open spec fn status_models(s: Seq<ValidationStatus>) -> Seq<(Seq<char>, Seq<char>, Seq<char>)>
    decreases s.len(),
{
    if s.len() == 0 {
        Seq::empty()
    } else {
        seq![status_model(s[0])] + status_models(s.drop_first())
    }
}

proof fn lemma_status_models_snoc(s: Seq<ValidationStatus>, e: ValidationStatus)
    ensures
        status_models(s.push(e)) == status_models(s).push(status_model(e)),
    decreases s.len(),
{
    let t = s.push(e);
    if s.len() == 0 {
        assert(t[0] == e);
        assert(t.drop_first() =~= Seq::<ValidationStatus>::empty());
        assert(status_models(t.drop_first()) =~= Seq::<(Seq<char>, Seq<char>, Seq<char>)>::empty());
        assert(status_models(t) =~= status_models(s).push(status_model(e)));
    } else {
        assert(t[0] == s[0]);
        assert(t.drop_first() =~= s.drop_first().push(e));
        lemma_status_models_snoc(s.drop_first(), e);
        assert(status_models(t) =~= status_models(s).push(status_model(e)));
    }
}

/// One parsed assertion reference: label, payload bytes, stored hash.
pub type AssertionParts = (Seq<char>, Seq<u8>, Seq<u8>);

/// Reads the fixed signed-envelope shape: exactly a `claim` byte string
/// and a `signature` byte string.
pub open spec fn signed_parts(v: VData) -> Option<(Seq<u8>, Seq<u8>)> {
    match v {
        VData::Dict(es) => if es.len() == 2 && es[0].0 == "claim"@ && es[1].0 == "signature"@ {
            match (es[0].1, es[1].1) {
                (VData::Bytes(cb), VData::Bytes(sig)) => Some((cb, sig)),
                _ => None,
            }
        } else {
            None
        },
        _ => None,
    }
}

/// Reads one assertion reference's fixed shape: `data`, `hash`, `label`.
pub open spec fn assertion_parts(v: VData) -> Option<AssertionParts> {
    match v {
        VData::Dict(es) => if es.len() == 3 && es[0].0 == "data"@ && es[1].0 == "hash"@ && es[2].0
            == "label"@ {
            match (es[0].1, es[1].1, es[2].1) {
                (VData::Bytes(d), VData::Bytes(h), VData::Text(l)) => Some((l, d, h)),
                _ => None,
            }
        } else {
            None
        },
        _ => None,
    }
}

/// Reads a list of assertion references.
pub open spec fn items_parts(xs: Seq<VData>) -> Option<Seq<AssertionParts>>
    decreases xs.len(),
{
    if xs.len() == 0 {
        Some(Seq::empty())
    } else {
        match assertion_parts(xs[0]) {
            Some(p) => match items_parts(xs.drop_first()) {
                Some(rest) => Some(seq![p] + rest),
                None => None,
            },
            None => None,
        }
    }
}

/// One parsed ingredient reference: title, format, relationship, and
/// the nested manifest when present.
pub type IngredientParts = (Seq<char>, Seq<char>, Seq<char>, Option<Seq<u8>>);

/// Reads one ingredient reference's fixed shape: `format`, `manifest`,
/// `relationship`, `title`, with an absent manifest encoded as null.
pub open spec fn ingredient_parts(v: VData) -> Option<IngredientParts> {
    match v {
        VData::Dict(es) => if es.len() == 4 && es[0].0 == "format"@ && es[1].0 == "manifest"@
            && es[2].0 == "relationship"@ && es[3].0 == "title"@ {
            match (es[0].1, es[2].1, es[3].1) {
                (VData::Text(f), VData::Text(rel), VData::Text(t)) => match es[1].1 {
                    VData::Bytes(b) => Some((t, f, rel, Some(b))),
                    VData::Null => Some((t, f, rel, None)),
                    _ => None,
                },
                _ => None,
            }
        } else {
            None
        },
        _ => None,
    }
}

/// Reads a list of ingredient references.
pub open spec fn ing_items_parts(xs: Seq<VData>) -> Option<Seq<IngredientParts>>
    decreases xs.len(),
{
    if xs.len() == 0 {
        Some(Seq::empty())
    } else {
        match ingredient_parts(xs[0]) {
            Some(p) => match ing_items_parts(xs.drop_first()) {
                Some(rest) => Some(seq![p] + rest),
                None => None,
            },
            None => None,
        }
    }
}

/// Reads the fixed claim shape: an `assertions` array of references, a
/// `generator` text, and an `ingredients` array of references.
pub open spec fn claim_parts(v: VData) -> Option<(Seq<char>, Seq<AssertionParts>, Seq<
    IngredientParts,
>)> {
    match v {
        VData::Dict(es) => if es.len() == 3 && es[0].0 == "assertions"@ && es[1].0 == "generator"@
            && es[2].0 == "ingredients"@ {
            match (es[0].1, es[1].1, es[2].1) {
                (VData::Array(xs), VData::Text(g), VData::Array(is)) => match (
                    items_parts(xs),
                    ing_items_parts(is),
                ) {
                    (Some(items), Some(ings)) => Some((g, items, ings)),
                    _ => None,
                },
                _ => None,
            }
        } else {
            None
        },
        _ => None,
    }
}

/// The full parse of a signed envelope's bytes: the claim bytes must
/// decode in full to the claim shape, and the envelope bytes in full to
/// the envelope shape.
pub open spec fn parse_signed(b: Seq<u8>) -> Option<(Seq<char>, Seq<AssertionParts>, Seq<
    IngredientParts,
>, Seq<u8>, Seq<u8>)> {
    match spec_decode(b) {
        Some((v, len)) => if len == b.len() {
            match signed_parts(v) {
                Some((cb, sig)) => match spec_decode(cb) {
                    Some((cv, clen)) => if clen == cb.len() {
                        match claim_parts(cv) {
                            Some((g, items, ings)) => Some((g, items, ings, cb, sig)),
                            None => None,
                        }
                    } else {
                        None
                    },
                    None => None,
                },
                _ => None,
            }
        } else {
            None
        },
        None => None,
    }
}

/// The binding-failure statuses a pass emits: one per assertion whose
/// stored hash does not match the hash recomputed over its bytes, in
/// order.
pub open spec fn hash_status_models(items: Seq<AssertionParts>) -> Seq<(Seq<char>, Seq<char>, Seq<
    char,
>)>
    decreases items.len(),
{
    if items.len() == 0 {
        Seq::empty()
    } else {
        (if items[0].2 != spec_data_hash(items[0].1) {
            seq![
                (
                    "assertion.hashedURI.mismatch"@,
                    "the assertion bytes do not match the stored binding hash"@,
                    items[0].0,
                ),
            ]
        } else {
            Seq::empty()
        }) + hash_status_models(items.drop_first())
    }
}

/// The signature-check status: one entry, valid or mismatched.
pub open spec fn sig_status_model(ok: bool) -> (Seq<char>, Seq<char>, Seq<char>) {
    if ok {
        ("claimSignature.validated"@, "the claim signature is valid"@, ""@)
    } else {
        ("claimSignature.mismatch"@, "the claim signature does not match the claim bytes"@, ""@)
    }
}

/// The trust-evaluation statuses: one entry when the credential is not
/// trusted, none when it is.
pub open spec fn trust_status_models(trusted: bool) -> Seq<(Seq<char>, Seq<char>, Seq<char>)> {
    if trusted {
        Seq::empty()
    } else {
        seq![("signingCredential.untrusted"@, "the signing credential is not trusted"@, ""@)]
    }
}

/// The single fatal-parse status.
pub open spec fn malformed_status_model() -> (Seq<char>, Seq<char>, Seq<char>) {
    ("claim.malformed"@, "the signed bytes do not parse as a claim"@, ""@)
}

/// The model of a reconstructed claim against the parsed parts.
pub open spec fn claim_matches_parts(
    c: Claim,
    g: Seq<char>,
    items: Seq<AssertionParts>,
    ings: Seq<IngredientParts>,
) -> bool {
    &&& c.claim_generator@ == g
    &&& c.assertions@.len() == items.len()
    &&& forall|i: int|
        0 <= i < items.len() ==> ((#[trigger] c.assertions@[i]).label@ == items[i].0
            && c.assertions@[i].data@ == items[i].1 && c.assertions@[i].hash@ == items[i].2)
    &&& c.ingredients@.len() == ings.len()
    &&& forall|i: int|
        0 <= i < ings.len() ==> ((#[trigger] c.ingredients@[i]).title@ == ings[i].0
            && c.ingredients@[i].format@ == ings[i].1 && c.ingredients@[i].relationship@
            == ings[i].2 && (match c.ingredients@[i].manifest {
            Some(b) => ings[i].3 == Some(b@),
            None => ings[i].3 is None,
        }))
}

/// The outcome of a verification pass: the stage reached, every status
/// emitted, and the reconstructed (possibly only partially trusted)
/// claim when parsing succeeded.
#[derive(Debug, PartialEq)]
pub struct ValidationReport {
    /// The stage the engine reached.
    pub state: EngineState,
    /// All accumulated findings, in emission order.
    pub statuses: Vec<ValidationStatus>,
    /// The reconstructed claim, when the input parsed.
    pub claim: Option<Claim>,
}

fn make_status(code: &str, explanation: &str, url: &str) -> (r: ValidationStatus)
    ensures
        status_model(r) == (code@, explanation@, url@),
{
    ValidationStatus {
        code: new_string(code),
        explanation: new_string(explanation),
        url: new_string(url),
    }
}

/// Verifies a signed envelope: parses it, recomputes every assertion's
/// binding hash, checks the detached signature and the trust decision,
/// and reports everything found.
///
/// Only unparseable input is fatal; it yields an `Unparsed` report with
/// a single malformed-claim status. Otherwise the engine always reaches
/// `Done`: binding failures are reported per assertion and do not stop
/// the signature or trust stages, and the statuses are exactly the
/// binding findings, then the signature finding, then the trust
/// finding, for the verifier's answers, whatever they were.
#[verifier::loop_isolation(false)]
#[verifier::rlimit(100)]
pub fn verify_claim<S: SignatureVerifier>(bytes: &Vec<u8>, verifier: &S) -> (r: ValidationReport)
    ensures
        match parse_signed(bytes@) {
            Some(parts) => {
                &&& r.state == EngineState::Done
                &&& r.claim matches Some(c) && claim_matches_parts(c, parts.0, parts.1, parts.2)
                &&& exists|sig_ok: bool, trusted: bool|
                    #![trigger sig_status_model(sig_ok), trust_status_models(trusted)]
                    status_models(r.statuses@) == hash_status_models(parts.1).push(
                        sig_status_model(sig_ok),
                    ) + trust_status_models(trusted)
            },
            None => {
                &&& r.state == EngineState::Unparsed
                &&& r.claim is None
                &&& status_models(r.statuses@) == seq![malformed_status_model()]
            },
        },
{
    // stage: parse the envelope
    let v = match crate::cbor::decode_whole(bytes) {
        Ok(v) => v,
        Err(_) => {
            return malformed_report();
        },
    };
    let (claim_bytes, signature): (Vec<u8>, Vec<u8>) = match &v {
        Value::Dict(es) => {
            if es.len() != 2 {
                proof {
                    lemma_dict_model(es@);
                }
                return malformed_report();
            }
            proof {
                lemma_dict_model(es@);
            }
            let k0 = crate::strutil::str_chars(es[0].0.as_str());
            let k1 = crate::strutil::str_chars(es[1].0.as_str());
            if !crate::strutil::chars_eq_str(&k0, "claim") || !crate::strutil::chars_eq_str(
                &k1,
                "signature",
            ) {
                return malformed_report();
            }
            match (&es[0].1, &es[1].1) {
                (Value::Bytes(cb), Value::Bytes(sig)) => {
                    let mut cbv: Vec<u8> = Vec::new();
                    cbv.extend_from_slice(cb.as_slice());
                    let mut sigv: Vec<u8> = Vec::new();
                    sigv.extend_from_slice(sig.as_slice());
                    proof {
                        assert(cbv@ =~= cb@);
                        assert(sigv@ =~= sig@);
                    }
                    (cbv, sigv)
                },
                _ => {
                    return malformed_report();
                },
            }
        },
        _ => {
            return malformed_report();
        },
    };
    // stage: parse the claim bytes
    let cv = match crate::cbor::decode_whole(&claim_bytes) {
        Ok(v) => v,
        Err(_) => {
            return malformed_report();
        },
    };
    let claim: Claim = match &cv {
        Value::Dict(es) => {
            if es.len() != 3 {
                proof {
                    lemma_dict_model(es@);
                }
                return malformed_report();
            }
            proof {
                lemma_dict_model(es@);
            }
            let k0 = crate::strutil::str_chars(es[0].0.as_str());
            let k1 = crate::strutil::str_chars(es[1].0.as_str());
            let k2 = crate::strutil::str_chars(es[2].0.as_str());
            if !crate::strutil::chars_eq_str(&k0, "assertions") || !crate::strutil::chars_eq_str(
                &k1,
                "generator",
            ) || !crate::strutil::chars_eq_str(&k2, "ingredients") {
                return malformed_report();
            }
            match (&es[0].1, &es[1].1, &es[2].1) {
                (Value::Array(xs), Value::Text(g), Value::Array(ivs)) => {
                    let mut assertions: Vec<Assertion> = Vec::new();
                    let mut i: usize = 0;
                    let ghost xm = vseq_model(xs@);
                    proof {
                        crate::value::lemma_vseq_model_len(xs@);
                    }
                    while i < xs.len()
                        invariant
                            i <= xs@.len(),
                            xm == vseq_model(xs@),
                            xm.len() == xs@.len(),
                            items_parts(xm.take(i as int)) matches Some(done) && done.len() == i
                                && assertions@.len() == i && (forall|j: int|
                                0 <= j < i ==> ((#[trigger] assertions@[j]).label@
                                    == done[j].0 && assertions@[j].data@ == done[j].1
                                    && assertions@[j].hash@ == done[j].2)),
                        decreases xs@.len() - i,
                    {
                        proof {
                            crate::value::lemma_vseq_model_index(xs@, i as int);
                        }
                        match &xs[i] {
                            Value::Dict(aes) => {
                                proof {
                                    lemma_dict_model(aes@);
                                }
                                if aes.len() != 3 {
                                    proof {
                                        lemma_items_parts_fail(xm, i as int);
                                    }
                                    return malformed_report();
                                }
                                let a0 = crate::strutil::str_chars(aes[0].0.as_str());
                                let a1 = crate::strutil::str_chars(aes[1].0.as_str());
                                let a2 = crate::strutil::str_chars(aes[2].0.as_str());
                                if !crate::strutil::chars_eq_str(&a0, "data")
                                    || !crate::strutil::chars_eq_str(&a1, "hash")
                                    || !crate::strutil::chars_eq_str(&a2, "label") {
                                    proof {
                                        lemma_items_parts_fail(xm, i as int);
                                    }
                                    return malformed_report();
                                }
                                match (&aes[0].1, &aes[1].1, &aes[2].1) {
                                    (Value::Bytes(d), Value::Bytes(h), Value::Text(l)) => {
                                        let mut dv: Vec<u8> = Vec::new();
                                        dv.extend_from_slice(d.as_slice());
                                        let mut hv: Vec<u8> = Vec::new();
                                        hv.extend_from_slice(h.as_slice());
                                        proof {
                                            assert(dv@ =~= d@);
                                            assert(hv@ =~= h@);
                                        }
                                        let a = Assertion {
                                            label: crate::value::copy_string(l),
                                            content_type: ContentType::Cbor,
                                            data: dv,
                                            hash: hv,
                                        };
                                        proof {
                                            assert(assertion_parts(xm[i as int]) == Some(
                                                (l@, d@, h@),
                                            ));
                                            lemma_items_parts_step(xm, i as int);
                                        }
                                        assertions.push(a);
                                        i = i + 1;
                                    },
                                    _ => {
                                        proof {
                                            lemma_items_parts_fail(xm, i as int);
                                        }
                                        return malformed_report();
                                    },
                                }
                            },
                            _ => {
                                proof {
                                    lemma_items_parts_fail(xm, i as int);
                                }
                                return malformed_report();
                            },
                        }
                    }
                    proof {
                        assert(xm.take(xm.len() as int) =~= xm);
                    }
                    let mut ingredients: Vec<Ingredient> = Vec::new();
                    let mut i: usize = 0;
                    let ghost im = vseq_model(ivs@);
                    proof {
                        crate::value::lemma_vseq_model_len(ivs@);
                    }
                    while i < ivs.len()
                        invariant
                            i <= ivs@.len(),
                            im == vseq_model(ivs@),
                            im.len() == ivs@.len(),
                            ing_items_parts(im.take(i as int)) matches Some(done) && done.len()
                                == i && ingredients@.len() == i && (forall|j: int|
                                0 <= j < i ==> ((#[trigger] ingredients@[j]).title@ == done[j].0
                                    && ingredients@[j].format@ == done[j].1
                                    && ingredients@[j].relationship@ == done[j].2 && (
                                match ingredients@[j].manifest {
                                    Some(b) => done[j].3 == Some(b@),
                                    None => done[j].3 is None,
                                }))),
                        decreases ivs@.len() - i,
                    {
                        proof {
                            crate::value::lemma_vseq_model_index(ivs@, i as int);
                        }
                        match &ivs[i] {
                            Value::Dict(ies) => {
                                proof {
                                    lemma_dict_model(ies@);
                                }
                                if ies.len() != 4 {
                                    proof {
                                        lemma_ing_items_parts_fail(im, i as int);
                                    }
                                    return malformed_report();
                                }
                                let b0 = crate::strutil::str_chars(ies[0].0.as_str());
                                let b1 = crate::strutil::str_chars(ies[1].0.as_str());
                                let b2 = crate::strutil::str_chars(ies[2].0.as_str());
                                let b3 = crate::strutil::str_chars(ies[3].0.as_str());
                                if !crate::strutil::chars_eq_str(&b0, "format")
                                    || !crate::strutil::chars_eq_str(&b1, "manifest")
                                    || !crate::strutil::chars_eq_str(&b2, "relationship")
                                    || !crate::strutil::chars_eq_str(&b3, "title") {
                                    proof {
                                        lemma_ing_items_parts_fail(im, i as int);
                                    }
                                    return malformed_report();
                                }
                                match (&ies[0].1, &ies[2].1, &ies[3].1) {
                                    (Value::Text(f), Value::Text(rel), Value::Text(t)) => {
                                        let manifest: Option<Vec<u8>> = match &ies[1].1 {
                                            Value::Bytes(b) => {
                                                let mut copy: Vec<u8> = Vec::new();
                                                copy.extend_from_slice(b.as_slice());
                                                proof {
                                                    assert(copy@ =~= b@);
                                                }
                                                Some(copy)
                                            },
                                            Value::Null => None,
                                            _ => {
                                                proof {
                                                    lemma_ing_items_parts_fail(im, i as int);
                                                }
                                                return malformed_report();
                                            },
                                        };
                                        let ing = Ingredient {
                                            title: crate::value::copy_string(t),
                                            format: crate::value::copy_string(f),
                                            relationship: crate::value::copy_string(rel),
                                            manifest,
                                        };
                                        proof {
                                            lemma_ing_items_parts_step(im, i as int);
                                        }
                                        ingredients.push(ing);
                                        i = i + 1;
                                    },
                                    _ => {
                                        proof {
                                            lemma_ing_items_parts_fail(im, i as int);
                                        }
                                        return malformed_report();
                                    },
                                }
                            },
                            _ => {
                                proof {
                                    lemma_ing_items_parts_fail(im, i as int);
                                }
                                return malformed_report();
                            },
                        }
                    }
                    proof {
                        assert(im.take(im.len() as int) =~= im);
                    }
                    Claim {
                        claim_generator: crate::value::copy_string(g),
                        assertions,
                        ingredients,
                    }
                },
                _ => {
                    return malformed_report();
                },
            }
        },
        _ => {
            return malformed_report();
        },
    };
    // stage: Parsed. recompute binding hashes.
    let ghost parts = parse_signed(bytes@).unwrap();
    let mut statuses: Vec<ValidationStatus> = Vec::new();
    let mut i: usize = 0;
    while i < claim.assertions.len()
        invariant
            i <= claim.assertions@.len(),
            claim_matches_parts(claim, parts.0, parts.1, parts.2),
            parts.1.len() == claim.assertions@.len(),
            status_models(statuses@) == hash_status_models(parts.1.take(i as int)),
        decreases claim.assertions@.len() - i,
    {
        let a = &claim.assertions[i];
        let recomputed = crate::assertion::data_hash(&a.data);
        let ghost old_statuses = statuses@;
        if !crate::claim::bytes_eq(&recomputed, &a.hash) {
            let s = make_status(
                "assertion.hashedURI.mismatch",
                "the assertion bytes do not match the stored binding hash",
                a.label.as_str(),
            );
            proof {
                lemma_status_models_snoc(old_statuses, s);
            }
            statuses.push(s);
        }
        i = i + 1;
        proof {
            lemma_hash_status_take(parts.1, i - 1);
        }
    }
    proof {
        assert(parts.1.take(parts.1.len() as int) =~= parts.1);
    }
    // stage: HashesRecomputed. check the signature.
    let sig_ok = verifier.verify_signature(&claim_bytes, &signature);
    let ghost before_sig = statuses@;
    let s = if sig_ok {
        make_status("claimSignature.validated", "the claim signature is valid", "")
    } else {
        make_status(
            "claimSignature.mismatch",
            "the claim signature does not match the claim bytes",
            "",
        )
    };
    proof {
        lemma_status_models_snoc(before_sig, s);
    }
    statuses.push(s);
    // stage: SignatureChecked. evaluate trust.
    let trusted = verifier.is_trusted();
    let ghost before_trust = statuses@;
    if !trusted {
        let s = make_status(
            "signingCredential.untrusted",
            "the signing credential is not trusted",
            "",
        );
        proof {
            lemma_status_models_snoc(before_trust, s);
        }
        statuses.push(s);
    }
    // stage: TrustEvaluated, then Done.
    proof {
        assert(status_models(statuses@) == hash_status_models(parts.1).push(
            sig_status_model(sig_ok),
        ) + trust_status_models(trusted));
    }
    ValidationReport { state: EngineState::Done, statuses, claim: Some(claim) }
}

/// The report for input that does not parse.
fn malformed_report() -> (r: ValidationReport)
    ensures
        r.state == EngineState::Unparsed,
        r.claim is None,
        status_models(r.statuses@) == seq![malformed_status_model()],
{
    let mut statuses: Vec<ValidationStatus> = Vec::new();
    let s = make_status("claim.malformed", "the signed bytes do not parse as a claim", "");
    proof {
        lemma_status_models_snoc(Seq::empty(), s);
        assert(status_models(Seq::<ValidationStatus>::empty())
            =~= Seq::<(Seq<char>, Seq<char>, Seq<char>)>::empty());
    }
    statuses.push(s);
    proof {
        assert(statuses@ =~= Seq::<ValidationStatus>::empty().push(s));
        assert(status_models(statuses@) =~= seq![malformed_status_model()]);
    }
    ValidationReport { state: EngineState::Unparsed, statuses, claim: None }
}

/// The first two (or three) model entries of a dictionary's model.
proof fn lemma_dict_model(es: Seq<(String, Value)>)
    ensures
        vmap_model(es).len() == es.len(),
        forall|j: int|
            0 <= j < es.len() ==> (#[trigger] vmap_model(es)[j]) == (es[j].0@, vmodel(es[j].1)),
{
    crate::value::lemma_vmap_model_len(es);
    assert forall|j: int| 0 <= j < es.len() implies (#[trigger] vmap_model(es)[j]) == (
        es[j].0@,
        vmodel(es[j].1),
    ) by {
        crate::value::lemma_vmap_model_index(es, j);
    }
}

/// Extending the prefix by one well-shaped reference extends the parsed
/// items by its parts.
proof fn lemma_items_parts_step(xs: Seq<VData>, i: int)
    requires
        0 <= i < xs.len(),
        items_parts(xs.take(i)) is Some,
        assertion_parts(xs[i]) is Some,
    ensures
        items_parts(xs.take(i + 1)) == Some(
            items_parts(xs.take(i)).unwrap().push(assertion_parts(xs[i]).unwrap()),
        ),
{
    lemma_items_parts_snoc(xs.take(i), xs[i]);
    assert(xs.take(i + 1) =~= xs.take(i).push(xs[i]));
}

proof fn lemma_items_parts_snoc(xs: Seq<VData>, x: VData)
    requires
        items_parts(xs) is Some,
        assertion_parts(x) is Some,
    ensures
        items_parts(xs.push(x)) == Some(items_parts(xs).unwrap().push(assertion_parts(x).unwrap())),
    decreases xs.len(),
{
    let t = xs.push(x);
    if xs.len() == 0 {
        assert(t[0] == x);
        assert(t.drop_first() =~= Seq::<VData>::empty());
        assert(items_parts(t.drop_first()) == Some(Seq::<AssertionParts>::empty()));
        assert(items_parts(t) =~= Some(items_parts(xs).unwrap().push(assertion_parts(x).unwrap())));
        assert(seq![assertion_parts(x).unwrap()] + Seq::<AssertionParts>::empty() =~= items_parts(
            xs,
        ).unwrap().push(assertion_parts(x).unwrap()));
    } else {
        assert(t[0] == xs[0]);
        assert(t.drop_first() =~= xs.drop_first().push(x));
        lemma_items_parts_snoc(xs.drop_first(), x);
        assert(seq![assertion_parts(t[0]).unwrap()] + items_parts(t.drop_first()).unwrap()
            =~= items_parts(xs).unwrap().push(assertion_parts(x).unwrap()));
    }
}

/// A malformed reference at `i` fails the whole list.
proof fn lemma_items_parts_fail(xs: Seq<VData>, i: int)
    requires
        0 <= i < xs.len(),
        assertion_parts(xs[i]) is None,
    ensures
        items_parts(xs) is None,
    decreases i,
{
    if xs.len() != 0 {
        if i == 0 {
        } else {
            assert(xs.drop_first()[i - 1] == xs[i]);
            lemma_items_parts_fail(xs.drop_first(), i - 1);
        }
    }
}


/// Extending the prefix by one well-shaped ingredient extends the
/// parsed references by its parts.
proof fn lemma_ing_items_parts_step(xs: Seq<VData>, i: int)
    requires
        0 <= i < xs.len(),
        ing_items_parts(xs.take(i)) is Some,
        ingredient_parts(xs[i]) is Some,
    ensures
        ing_items_parts(xs.take(i + 1)) == Some(
            ing_items_parts(xs.take(i)).unwrap().push(ingredient_parts(xs[i]).unwrap()),
        ),
{
    lemma_ing_items_parts_snoc(xs.take(i), xs[i]);
    assert(xs.take(i + 1) =~= xs.take(i).push(xs[i]));
}

proof fn lemma_ing_items_parts_snoc(xs: Seq<VData>, x: VData)
    requires
        ing_items_parts(xs) is Some,
        ingredient_parts(x) is Some,
    ensures
        ing_items_parts(xs.push(x)) == Some(
            ing_items_parts(xs).unwrap().push(ingredient_parts(x).unwrap()),
        ),
    decreases xs.len(),
{
    let t = xs.push(x);
    if xs.len() == 0 {
        assert(t[0] == x);
        assert(t.drop_first() =~= Seq::<VData>::empty());
        assert(ing_items_parts(t.drop_first()) == Some(Seq::<IngredientParts>::empty()));
        assert(seq![ingredient_parts(x).unwrap()] + Seq::<IngredientParts>::empty()
            =~= ing_items_parts(xs).unwrap().push(ingredient_parts(x).unwrap()));
    } else {
        assert(t[0] == xs[0]);
        assert(t.drop_first() =~= xs.drop_first().push(x));
        lemma_ing_items_parts_snoc(xs.drop_first(), x);
        assert(seq![ingredient_parts(t[0]).unwrap()] + ing_items_parts(t.drop_first()).unwrap()
            =~= ing_items_parts(xs).unwrap().push(ingredient_parts(x).unwrap()));
    }
}

/// A malformed ingredient at `i` fails the whole list.
proof fn lemma_ing_items_parts_fail(xs: Seq<VData>, i: int)
    requires
        0 <= i < xs.len(),
        ingredient_parts(xs[i]) is None,
    ensures
        ing_items_parts(xs) is None,
    decreases i,
{
    if xs.len() != 0 {
        if i == 0 {
        } else {
            assert(xs.drop_first()[i - 1] == xs[i]);
            lemma_ing_items_parts_fail(xs.drop_first(), i - 1);
        }
    }
}

/// One step of the binding-status accumulation.
proof fn lemma_hash_status_take(items: Seq<AssertionParts>, i: int)
    requires
        0 <= i < items.len(),
    ensures
        hash_status_models(items.take(i + 1)) == hash_status_models(items.take(i)) + (if items[i].2
            != spec_data_hash(items[i].1) {
            seq![
                (
                    "assertion.hashedURI.mismatch"@,
                    "the assertion bytes do not match the stored binding hash"@,
                    items[i].0,
                ),
            ]
        } else {
            Seq::empty()
        }),
{
    lemma_hash_status_snoc(items.take(i), items[i]);
    assert(items.take(i + 1) =~= items.take(i).push(items[i]));
}

proof fn lemma_hash_status_snoc(items: Seq<AssertionParts>, x: AssertionParts)
    ensures
        hash_status_models(items.push(x)) == hash_status_models(items) + (if x.2
            != spec_data_hash(x.1) {
            seq![
                (
                    "assertion.hashedURI.mismatch"@,
                    "the assertion bytes do not match the stored binding hash"@,
                    x.0,
                ),
            ]
        } else {
            Seq::empty()
        }),
    decreases items.len(),
{
    let t = items.push(x);
    if items.len() == 0 {
        assert(t[0] == x);
        assert(t.drop_first() =~= Seq::<AssertionParts>::empty());
        assert(hash_status_models(t.drop_first()) =~= Seq::<(Seq<char>, Seq<char>, Seq<
            char,
        >)>::empty());
        assert(hash_status_models(t) =~= hash_status_models(items) + (if x.2 != spec_data_hash(
            x.1,
        ) {
            seq![
                (
                    "assertion.hashedURI.mismatch"@,
                    "the assertion bytes do not match the stored binding hash"@,
                    x.0,
                ),
            ]
        } else {
            Seq::empty()
        }));
    } else {
        assert(t[0] == items[0]);
        assert(t.drop_first() =~= items.drop_first().push(x));
        lemma_hash_status_snoc(items.drop_first(), x);
        assert(hash_status_models(t) =~= hash_status_models(items) + (if x.2 != spec_data_hash(
            x.1,
        ) {
            seq![
                (
                    "assertion.hashedURI.mismatch"@,
                    "the assertion bytes do not match the stored binding hash"@,
                    x.0,
                ),
            ]
        } else {
            Seq::empty()
        }));
    }
}


/// The parsed reference of each assertion of a claim value.
pub open spec fn claim_items_of(s: Seq<Assertion>) -> Seq<AssertionParts> {
    Seq::new(s.len(), |j: int| (s[j].label@, s[j].data@, s[j].hash@))
}

/// The parsed reference of each ingredient of a claim value.
pub open spec fn claim_ings_of(s: Seq<Ingredient>) -> Seq<IngredientParts> {
    Seq::new(
        s.len(),
        |j: int|
            (
                s[j].title@,
                s[j].format@,
                s[j].relationship@,
                match s[j].manifest {
                    Some(b) => Some(b@),
                    None => None,
                },
            ),
    )
}

/// The wire of an assertion list parses back to its references.
proof fn lemma_items_parts_of_wire(s: Seq<Assertion>)
    ensures
        items_parts(assertions_wire_seq(s)) == Some(claim_items_of(s)),
    decreases s.len(),
{
    let aws = assertions_wire_seq(s);
    if s.len() == 0 {
        assert(aws =~= Seq::<VData>::empty());
        assert(items_parts(aws) == Some(Seq::<AssertionParts>::empty()));
        assert(claim_items_of(s) =~= Seq::<AssertionParts>::empty());
    } else {
        assert(aws[0] == assertion_entry_wire(s[0]));
        let a = s[0];
        let es = seq![
            ("data"@, VData::Bytes(a.data@)),
            ("hash"@, VData::Bytes(a.hash@)),
            ("label"@, VData::Text(a.label@)),
        ];
        assert(assertion_entry_wire(a) == VData::Dict(es));
        assert(es[0] == ("data"@, VData::Bytes(a.data@)));
        assert(es[1] == ("hash"@, VData::Bytes(a.hash@)));
        assert(es[2] == ("label"@, VData::Text(a.label@)));
        assert(assertion_parts(assertion_entry_wire(a)) == Some((a.label@, a.data@, a.hash@)));
        assert(aws.drop_first() =~= assertions_wire_seq(s.drop_first()));
        lemma_items_parts_of_wire(s.drop_first());
        assert(seq![(a.label@, a.data@, a.hash@)] + claim_items_of(s.drop_first())
            =~= claim_items_of(s));
    }
}

/// The wire of an ingredient list parses back to its references.
proof fn lemma_ing_items_parts_of_wire(s: Seq<Ingredient>)
    ensures
        ing_items_parts(ingredients_wire_seq(s)) == Some(claim_ings_of(s)),
    decreases s.len(),
{
    let iws = ingredients_wire_seq(s);
    if s.len() == 0 {
        assert(iws =~= Seq::<VData>::empty());
        assert(ing_items_parts(iws) == Some(Seq::<IngredientParts>::empty()));
        assert(claim_ings_of(s) =~= Seq::<IngredientParts>::empty());
    } else {
        assert(iws[0] == ingredient_wire(s[0]));
        let a = s[0];
        let mv = match a.manifest {
            Some(b) => VData::Bytes(b@),
            None => VData::Null,
        };
        let es = seq![
            ("format"@, VData::Text(a.format@)),
            ("manifest"@, mv),
            ("relationship"@, VData::Text(a.relationship@)),
            ("title"@, VData::Text(a.title@)),
        ];
        assert(es =~= ingredient_wire(a)->Dict_0);
        assert(ingredient_wire(a) == VData::Dict(es));
        assert(es[0] == ("format"@, VData::Text(a.format@)));
        assert(es[1] == ("manifest"@, mv));
        assert(es[2] == ("relationship"@, VData::Text(a.relationship@)));
        assert(es[3] == ("title"@, VData::Text(a.title@)));
        let parts = (
            a.title@,
            a.format@,
            a.relationship@,
            match a.manifest {
                Some(b) => Some(b@),
                None => None,
            },
        );
        assert(ingredient_parts(ingredient_wire(a)) == Some(parts));
        assert(iws.drop_first() =~= ingredients_wire_seq(s.drop_first()));
        lemma_ing_items_parts_of_wire(s.drop_first());
        assert(seq![parts] + claim_ings_of(s.drop_first()) =~= claim_ings_of(s));
    }
}

/// A signed envelope built from a claim value and a signature parses
/// back to exactly that claim's parts and that signature.
pub proof fn lemma_parse_of_signed_claim(c: Claim, sig: Seq<u8>)
    requires
        spec_bounded(claim_wire(c)),
        spec_bounded(signed_wire(spec_encode(claim_wire(c)), sig)),
    ensures
        parse_signed(spec_encode(signed_wire(spec_encode(claim_wire(c)), sig))) == Some(
            (
                c.claim_generator@,
                claim_items_of(c.assertions@),
                claim_ings_of(c.ingredients@),
                spec_encode(claim_wire(c)),
                sig,
            ),
        ),
{
    let cb = spec_encode(claim_wire(c));
    let e = spec_encode(signed_wire(cb, sig));
    crate::cbor::lemma_decode_encode(signed_wire(cb, sig), Seq::empty());
    assert(e + Seq::<u8>::empty() =~= e);
    let ses = seq![("claim"@, VData::Bytes(cb)), ("signature"@, VData::Bytes(sig))];
    assert(signed_wire(cb, sig) == VData::Dict(ses));
    assert(ses[0] == ("claim"@, VData::Bytes(cb)));
    assert(ses[1] == ("signature"@, VData::Bytes(sig)));
    assert(signed_parts(signed_wire(cb, sig)) == Some((cb, sig)));
    crate::cbor::lemma_decode_encode(claim_wire(c), Seq::empty());
    assert(cb + Seq::<u8>::empty() =~= cb);
    let aws = assertions_wire_seq(c.assertions@);
    let iws = ingredients_wire_seq(c.ingredients@);
    let tes = seq![
        ("assertions"@, VData::Array(aws)),
        ("generator"@, VData::Text(c.claim_generator@)),
        ("ingredients"@, VData::Array(iws)),
    ];
    assert(claim_wire(c) == VData::Dict(tes));
    assert(tes[0] == ("assertions"@, VData::Array(aws)));
    assert(tes[1] == ("generator"@, VData::Text(c.claim_generator@)));
    assert(tes[2] == ("ingredients"@, VData::Array(iws)));
    lemma_items_parts_of_wire(c.assertions@);
    lemma_ing_items_parts_of_wire(c.ingredients@);
    assert(claim_parts(claim_wire(c)) == Some(
        (c.claim_generator@, claim_items_of(c.assertions@), claim_ings_of(c.ingredients@)),
    ));
}

/// Splicing an updated middle piece into a concatenation updates one
/// position of the whole.
proof fn lemma_concat_update(pre: Seq<u8>, d: Seq<u8>, post: Seq<u8>, p: int, b: u8)
    requires
        0 <= p < d.len(),
    ensures
        pre + d.update(p, b) + post == (pre + d + post).update(pre.len() + p, b),
{
    assert(pre + d.update(p, b) + post =~= (pre + d + post).update(pre.len() + p, b));
}

/// A binding mismatch at one reference always appears among the
/// binding statuses.
proof fn lemma_hash_status_contains(items: Seq<AssertionParts>, i: int)
    requires
        0 <= i < items.len(),
        items[i].2 != spec_data_hash(items[i].1),
    ensures
        hash_status_models(items).contains(
            (
                "assertion.hashedURI.mismatch"@,
                "the assertion bytes do not match the stored binding hash"@,
                items[i].0,
            ),
        ),
    decreases i,
{
    let entry = (
        "assertion.hashedURI.mismatch"@,
        "the assertion bytes do not match the stored binding hash"@,
        items[i].0,
    );
    let m = hash_status_models(items);
    if i == 0 {
        assert(m[0] == entry);
        assert(m.contains(entry));
    } else {
        assert(items.drop_first()[i - 1] == items[i]);
        lemma_hash_status_contains(items.drop_first(), i - 1);
        let rest = hash_status_models(items.drop_first());
        let k = choose|k: int| 0 <= k < rest.len() && rest[k] == entry;
        let head_len = m.len() - rest.len();
        assert(m == (if items[0].2 != spec_data_hash(items[0].1) {
            seq![
                (
                    "assertion.hashedURI.mismatch"@,
                    "the assertion bytes do not match the stored binding hash"@,
                    items[0].0,
                ),
            ]
        } else {
            Seq::empty()
        }) + rest);
        assert(m[head_len + k] == entry);
        assert(m.contains(entry));
    }
}

/// The tamper outcome, end to end: flipping one byte inside an
/// assertion's payload of a signed envelope moves exactly one byte of
/// the envelope, the result still parses — same generator, ingredients,
/// stored hashes and signature, only that payload byte changed — and
/// the recomputed binding hash of that assertion then mismatches its
/// stored hash, so a verification pass reports a binding failure for it
/// and still reaches the end.
pub proof fn lemma_tampered_envelope(c: Claim, c2: Claim, i: int, p: int, b: u8, sig: Seq<u8>)
    requires
        0 <= i < c.assertions@.len(),
        wf_claim(c),
        0 <= p < c.assertions@[i].data@.len(),
        b != c.assertions@[i].data@[p],
        c2.assertions@.len() == c.assertions@.len(),
        forall|j: int|
            0 <= j < c.assertions@.len() && j != i ==> c2.assertions@[j] == c.assertions@[j],
        c2.assertions@[i].label == c.assertions@[i].label,
        c2.assertions@[i].hash == c.assertions@[i].hash,
        c2.assertions@[i].data@ == c.assertions@[i].data@.update(p, b),
        c2.claim_generator == c.claim_generator,
        c2.ingredients@ == c.ingredients@,
        spec_bounded(claim_wire(c2)),
        spec_bounded(signed_wire(spec_encode(claim_wire(c2)), sig)),
    ensures
        ({
            let e = spec_encode(signed_wire(spec_encode(claim_wire(c)), sig));
            let e2 = spec_encode(signed_wire(spec_encode(claim_wire(c2)), sig));
            let items2 = claim_items_of(c2.assertions@);
            &&& e2 == e.update(
                signed_prefix(spec_encode(claim_wire(c)).len()).len() + claim_data_prefix(
                    c,
                    i,
                ).len() + p,
                b,
            )
            &&& parse_signed(e2) == Some(
                (
                    c.claim_generator@,
                    items2,
                    claim_ings_of(c.ingredients@),
                    spec_encode(claim_wire(c2)),
                    sig,
                ),
            )
            &&& items2[i].2 != spec_data_hash(items2[i].1)
            &&& hash_status_models(items2).contains(
                (
                    "assertion.hashedURI.mismatch"@,
                    "the assertion bytes do not match the stored binding hash"@,
                    c.assertions@[i].label@,
                ),
            )
        }),
{
    lemma_payload_edit_is_envelope_edit(c, c2, i, sig);
    let pre = signed_prefix(spec_encode(claim_wire(c)).len()) + claim_data_prefix(c, i);
    let post = crate::claim::claim_data_suffix(c, i) + crate::claim::signed_suffix(sig);
    let d = c.assertions@[i].data@;
    lemma_concat_update(pre, d, post, p, b);
    assert(pre.len() == signed_prefix(spec_encode(claim_wire(c)).len()).len()
        + claim_data_prefix(c, i).len());
    lemma_parse_of_signed_claim(c2, sig);
    assert(claim_ings_of(c2.ingredients@) == claim_ings_of(c.ingredients@));
    let items2 = claim_items_of(c2.assertions@);
    assert(items2[i].2 == c.assertions@[i].hash@);
    assert(items2[i].1 == c2.assertions@[i].data@);
    crate::assertion::lemma_hash_byte_flip(d, p, b);
    assert(spec_data_hash(c2.assertions@[i].data@) != spec_data_hash(d));
    assert(c.assertions@[i].hash@ == spec_data_hash(d));
    lemma_hash_status_contains(items2, i);
    assert(items2[i].0 == c.assertions@[i].label@);
}

} // verus!
