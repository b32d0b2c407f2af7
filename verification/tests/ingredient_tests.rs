//! Ingredient identifiers: the reserved parameter, its deprecated
//! fallback, and its malformed-input tolerance.

use c2pa::actions::{Action, Actions, is_v2_deprecated_action, CAI_INGREDIENT_IDS};
use c2pa::c2pa_action;
use c2pa::value::Value;

#[test]
fn test_add_ingredient_id_single_then_ordered_pair() {
    let mut a = Action::new(c2pa_action::OPENED);
    assert_eq!(a.ingredient_ids(), None);

    a.add_ingredient_id("xmp.iid:first");
    assert_eq!(a.ingredient_ids(), Some(vec!["xmp.iid:first".to_string()]));

    // a second call appends in call order and never deduplicates
    a.add_ingredient_id("xmp.iid:second");
    assert_eq!(
        a.ingredient_ids(),
        Some(vec!["xmp.iid:first".to_string(), "xmp.iid:second".to_string()])
    );

    a.add_ingredient_id("xmp.iid:first");
    assert_eq!(
        a.ingredient_ids(),
        Some(vec![
            "xmp.iid:first".to_string(),
            "xmp.iid:second".to_string(),
            "xmp.iid:first".to_string()
        ])
    );
}

#[test]
fn test_malformed_ingredient_ids_parameter_reads_as_absent() {
    // a non-array value under the reserved key is ignored, not an error
    let a = Action::new(c2pa_action::OPENED)
        .set_parameter(CAI_INGREDIENT_IDS, Value::Text("not an array".to_string()))
        .unwrap();
    assert_eq!(a.ingredient_ids(), None);

    let a = Action::new(c2pa_action::OPENED)
        .set_parameter(CAI_INGREDIENT_IDS, Value::UInt(7))
        .unwrap();
    assert_eq!(a.ingredient_ids(), None);

    // an array holding any non-text element is not an array of strings:
    // it reads as absent too, never as a filtered remainder
    let a = Action::new(c2pa_action::OPENED)
        .set_parameter(
            CAI_INGREDIENT_IDS,
            Value::Array(vec![Value::Text("xmp.iid:ok".to_string()), Value::UInt(1)]),
        )
        .unwrap();
    assert_eq!(a.ingredient_ids(), None);

    // an empty array is an array of strings, and distinct from absent
    let a = Action::new(c2pa_action::OPENED)
        .set_parameter(CAI_INGREDIENT_IDS, Value::Array(vec![]))
        .unwrap();
    assert_eq!(a.ingredient_ids(), Some(vec![]));
}

#[test]
fn test_deprecated_instance_id_fallback() {
    // older content carries a single instance identifier; reading falls
    // back to it only when the reserved parameter is absent
    let mut a = Action::new(c2pa_action::OPENED);
    a.instance_id = Some("xmp.iid:legacy".to_string());
    assert_eq!(a.instance_id(), Some("xmp.iid:legacy"));
    assert_eq!(a.ingredient_ids(), Some(vec!["xmp.iid:legacy".to_string()]));

    // the reserved parameter wins over the deprecated field
    a.add_ingredient_id("xmp.iid:new");
    assert_eq!(a.ingredient_ids(), Some(vec!["xmp.iid:new".to_string()]));
}

#[test]
fn test_instance_id_never_serialized() {
    let mut a = Action::new(c2pa_action::OPENED);
    a.instance_id = Some("xmp.iid:legacy".to_string());
    let x = Actions::new().add_action(a);
    let bytes = x.to_bytes();
    let back = Actions::from_bytes(&bytes).expect("decode");
    // the deprecated field is dropped by encoding
    assert_eq!(back.actions[0].instance_id(), None);
    assert_eq!(back.actions[0].ingredient_ids(), None);
}

#[test]
fn test_instance_id_still_deserializes() {
    // a wire produced by an older writer carries the deprecated key;
    // decoding still accepts it
    let json: serde_json::Value = serde_json::from_str(
        r#"{"actions": [{"action": "c2pa.opened", "instanceId": "xmp.iid:legacy"}]}"#,
    )
    .unwrap();
    let x = Actions::from_json_value(&json).expect("decode");
    assert_eq!(x.actions[0].instance_id(), Some("xmp.iid:legacy"));
    assert_eq!(
        x.actions[0].ingredient_ids(),
        Some(vec!["xmp.iid:legacy".to_string()])
    );
}

#[test]
fn test_instance_id_alias_spellings_accepted() {
    for key in ["instanceId", "instanceID", "instance_id"] {
        let doc = format!(
            r#"{{"actions": [{{"action": "c2pa.opened", "{}": "xmp.iid:aliased"}}]}}"#,
            key
        );
        let json: serde_json::Value = serde_json::from_str(&doc).unwrap();
        let x = Actions::from_json_value(&json).expect("decode");
        assert_eq!(x.actions[0].instance_id(), Some("xmp.iid:aliased"));
    }
}

#[test]
fn test_set_instance_id_routes_to_reserved_parameter() {
    let a = Action::new(c2pa_action::OPENED).set_instance_id("xmp.iid:routed");
    assert_eq!(a.instance_id(), None);
    assert_eq!(a.ingredient_ids(), Some(vec!["xmp.iid:routed".to_string()]));
}

#[test]
fn test_deprecated_action_labels_recognized() {
    assert!(is_v2_deprecated_action("c2pa.copied"));
    assert!(is_v2_deprecated_action("c2pa.formatted"));
    assert!(is_v2_deprecated_action("c2pa.version_updated"));
    assert!(is_v2_deprecated_action("c2pa.printed"));
    assert!(is_v2_deprecated_action("c2pa.managed"));
    assert!(is_v2_deprecated_action("c2pa.produced"));
    assert!(is_v2_deprecated_action("c2pa.saved"));
    assert!(!is_v2_deprecated_action("c2pa.created"));
    assert!(!is_v2_deprecated_action("c2pa.edited"));
}
