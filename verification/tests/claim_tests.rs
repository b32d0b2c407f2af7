//! Claim assembly, signing and verification: the build→sign→verify
//! pipeline, the tamper response, and build-time schema validation.

use c2pa::actions::{Action, Actions};
use c2pa::c2pa_action;
use c2pa::claim::{Claim, Ingredient, LocalSigner, sign_claim};
use c2pa::verify::{verify_claim, EngineState};
use c2pa::value::Value;

fn text(s: &str) -> Value {
    Value::Text(s.to_string())
}

fn build_claim() -> Claim {
    let actions = Actions::new()
        .add_action(
            Action::new(c2pa_action::CROPPED)
                .set_parameter(
                    "coordinate",
                    text(r#"{"left": 0, "right": 2000, "top": 1000, "bottom": 4000}"#),
                )
                .unwrap(),
        )
        .add_action(
            Action::new(c2pa_action::FILTERED)
                .set_when("2015-06-26T16:43:23+0200")
                .set_source_type("http://cv.iptc.org/newscodes/digitalsourcetype/algorithmicMedia"),
        );
    let mut claim = Claim::new("test generator");
    claim.add_actions_assertion(&actions).expect("schema ok");
    claim.add_ingredient(Ingredient {
        title: "Parent Test".to_string(),
        format: "image/jpeg".to_string(),
        relationship: "parentOf".to_string(),
        manifest: None,
    });
    claim.add_ingredient(Ingredient {
        title: "Test".to_string(),
        format: "image/jpeg".to_string(),
        relationship: "inputTo".to_string(),
        manifest: Some(vec![0xa0]),
    });
    claim
}

#[test]
fn test_sign_and_verify_end_to_end() {
    let claim = build_claim();
    let signer = LocalSigner::new(b"test key".to_vec());
    let signed = sign_claim(&claim, &signer).expect("sign");

    let report = verify_claim(&signed, &signer);
    assert_eq!(report.state, EngineState::Done);
    let codes: Vec<&str> = report.statuses.iter().map(|s| s.code.as_str()).collect();
    assert_eq!(codes, vec!["claimSignature.validated"]);

    // the reconstructed claim matches the original exactly
    let got = report.claim.expect("claim parsed");
    assert_eq!(got.claim_generator, "test generator");
    assert_eq!(got.assertions.len(), 1);
    assert_eq!(got.assertions[0].label(), "c2pa.actions.v2");
    assert_eq!(got.assertions[0].data(), claim.assertions[0].data());

    // ingredient references survive the trip, absent and present nested
    // manifests kept distinct
    assert_eq!(got.ingredients.len(), 2);
    assert_eq!(got.ingredients[0].title, "Parent Test");
    assert_eq!(got.ingredients[0].relationship, "parentOf");
    assert_eq!(got.ingredients[0].manifest, None);
    assert_eq!(got.ingredients[1].relationship, "inputTo");
    assert_eq!(got.ingredients[1].manifest, Some(vec![0xa0]));

    // both actions and their parameters survive the trip exactly
    let decoded = Actions::from_bytes(got.assertions[0].data()).expect("decode actions");
    assert_eq!(decoded.actions.len(), 2);
    assert_eq!(decoded.actions[0].action(), "c2pa.cropped");
    assert_eq!(
        decoded.actions[0].get_parameter("coordinate"),
        Some(&text(r#"{"left": 0, "right": 2000, "top": 1000, "bottom": 4000}"#))
    );
    assert_eq!(decoded.actions[1].action(), "c2pa.filtered");
    assert_eq!(decoded.actions[1].when(), Some("2015-06-26T16:43:23+0200"));
    assert_eq!(
        decoded.actions[1].source_type(),
        Some("http://cv.iptc.org/newscodes/digitalsourcetype/algorithmicMedia")
    );
}

#[test]
fn test_tamper_detection() {
    let claim = build_claim();
    let signer = LocalSigner::new(b"test key".to_vec());
    let mut signed = sign_claim(&claim, &signer).expect("sign");

    // flip one byte inside the signed assertion's encoded bytes: the
    // payload holds the action label "c2pa.cropped"; find its "crop"
    // run and corrupt it
    let needle = b"crop";
    let pos = signed
        .windows(needle.len())
        .position(|w| w == needle)
        .expect("label bytes present");
    signed[pos] ^= 0x01;

    let report = verify_claim(&signed, &signer);
    // verification completes with a full diagnostic instead of aborting
    assert_eq!(report.state, EngineState::Done);
    let codes: Vec<&str> = report.statuses.iter().map(|s| s.code.as_str()).collect();
    assert!(codes.contains(&"assertion.hashedURI.mismatch"));
    // the signature over the claim bytes fails as well
    assert!(codes.contains(&"claimSignature.mismatch"));
    // the hash mismatch names the assertion it concerns
    let mismatch = report
        .statuses
        .iter()
        .find(|s| s.code == "assertion.hashedURI.mismatch")
        .unwrap();
    assert_eq!(mismatch.url, "c2pa.actions.v2");
}

#[test]
fn test_wrong_key_fails_signature_but_not_bindings() {
    let claim = build_claim();
    let signer = LocalSigner::new(b"test key".to_vec());
    let signed = sign_claim(&claim, &signer).expect("sign");

    let other = LocalSigner::new(b"another key".to_vec());
    let report = verify_claim(&signed, &other);
    assert_eq!(report.state, EngineState::Done);
    let codes: Vec<&str> = report.statuses.iter().map(|s| s.code.as_str()).collect();
    assert_eq!(codes, vec!["claimSignature.mismatch"]);
}

#[test]
fn test_garbage_input_is_fatal_before_parsed() {
    let signer = LocalSigner::new(b"test key".to_vec());
    let garbage = vec![0xffu8, 0x00, 0x12, 0x34];
    let report = verify_claim(&garbage, &signer);
    assert_eq!(report.state, EngineState::Unparsed);
    assert!(report.claim.is_none());
    let codes: Vec<&str> = report.statuses.iter().map(|s| s.code.as_str()).collect();
    assert_eq!(codes, vec!["claim.malformed"]);
}

#[test]
fn test_redaction_without_reason_fails_at_build_time() {
    let actions = Actions::new().add_action(Action::new(c2pa_action::REDACTED));
    let mut claim = Claim::new("test generator");
    let r = claim.add_actions_assertion(&actions);
    assert_eq!(r, Err(c2pa::Error::Schema));
    // the claim is left unchanged
    assert_eq!(claim.assertions.len(), 0);

    // with a reason the same assertion is accepted
    let actions = Actions::new().add_action(
        Action::new(c2pa_action::REDACTED).set_reason("privacy"),
    );
    assert!(claim.add_actions_assertion(&actions).is_ok());
    assert_eq!(claim.assertions.len(), 1);
}

#[test]
fn test_nested_redaction_without_reason_fails_at_build_time() {
    // a redaction hidden among related sub-actions is validated too
    let nested = Action::new(c2pa_action::REDACTED);
    let actions = Actions::new().add_action(
        Action::new(c2pa_action::EDITED).set_related(Some(vec![nested])),
    );
    let mut claim = Claim::new("test generator");
    assert_eq!(claim.add_actions_assertion(&actions), Err(c2pa::Error::Schema));
    assert_eq!(claim.assertions.len(), 0);

    let nested = Action::new(c2pa_action::REDACTED).set_reason("privacy");
    let actions = Actions::new().add_action(
        Action::new(c2pa_action::EDITED).set_related(Some(vec![nested])),
    );
    assert!(claim.add_actions_assertion(&actions).is_ok());
}

#[test]
fn test_signer_failure_aborts_pipeline() {
    struct FailingSigner;
    impl c2pa::claim::Signer for FailingSigner {
        fn alg(&self) -> String {
            "none".to_string()
        }
        fn sign(&self, _data: &Vec<u8>) -> Result<Vec<u8>, c2pa::Error> {
            Err(c2pa::Error::Signer)
        }
    }
    let claim = build_claim();
    let r = sign_claim(&claim, &FailingSigner);
    assert_eq!(r, Err(c2pa::Error::Signer));
}

#[test]
fn test_update_action_out_of_bounds() {
    let actions = Actions::new().add_action(Action::new(c2pa_action::CREATED));
    let replacement = Action::new(c2pa_action::EDITED);
    match actions.update_action(5, replacement) {
        Ok(_) => panic!("index past the end must be rejected"),
        Err((unchanged, e)) => {
            assert_eq!(e, c2pa::Error::OutOfBounds);
            assert_eq!(unchanged.actions.len(), 1);
            assert_eq!(unchanged.actions[0].action(), "c2pa.created");
        },
    }
    let actions = Actions::new().add_action(Action::new(c2pa_action::CREATED));
    let replacement = Action::new(c2pa_action::EDITED);
    let updated = actions.update_action(0, replacement).expect("in bounds");
    assert_eq!(updated.actions[0].action(), "c2pa.edited");
}
