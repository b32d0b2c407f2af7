//! The Actions assertion: building, encoding to the binary envelope,
//! and round-tripping through bytes and JSON.

use c2pa::actions::{Action, Actions, ClaimGeneratorInfo, Metadata, SoftwareAgent};
use c2pa::c2pa_action;
use c2pa::assertion::Assertion;
use c2pa::value::Value;

fn text(s: &str) -> Value {
    Value::Text(s.to_string())
}

fn dict(entries: Vec<(&str, Value)>) -> Value {
    Value::Dict(entries.into_iter().map(|(k, v)| (k.to_string(), v)).collect())
}

fn make_hashed_uri1() -> Value {
    dict(vec![
        ("url", text("self#jumbf=verified_credentials/1234")),
        ("hash", Value::Bytes(b"hashed".to_vec())),
    ])
}

fn make_actor1() -> Value {
    dict(vec![
        ("identifier", text("Somebody")),
        ("credentials", Value::Array(vec![make_hashed_uri1()])),
    ])
}

fn make_region1() -> Value {
    dict(vec![(
        "region",
        Value::Array(vec![dict(vec![
            ("time", dict(vec![("type", text("npt"))])),
            ("type", text("temporal")),
        ])]),
    )])
}

fn make_action1() -> Action {
    Action::new(c2pa_action::CROPPED)
        .set_software_agent(SoftwareAgent::String("test".to_string()))
        .set_when("2015-06-26T16:43:23+0200")
        .set_parameter(
            "foo",
            text(
                r#"{
                "left": 0,
                "right": 2000,
                "top": 1000,
                "bottom": 4000
            }"#,
            ),
        )
        .unwrap()
        .set_parameter("ingredient", make_hashed_uri1())
        .unwrap()
        .set_changed(Some(&vec!["this".to_string(), "that".to_string()]))
        .set_actors(Some(vec![make_actor1()]))
}

#[test]
fn assertion_actions() {
    let original = Actions::new()
        .add_action(make_action1())
        .add_action(
            Action::new("c2pa.filtered")
                .set_parameter("name", text("gaussian blur"))
                .unwrap()
                .set_when("2015-06-26T16:43:23+0200")
                .set_source_type("digsrctype:algorithmicMedia")
                .add_change(make_region1()),
        )
        .add_metadata(
            Metadata::new()
                .insert(
                    "reviewRatings",
                    Value::Array(vec![dict(vec![
                        ("explanation", text("foo")),
                        ("code", text("bar")),
                        ("value", Value::UInt(3)),
                    ])]),
                )
                .insert("reference", make_hashed_uri1())
                .insert("dataSource", dict(vec![("type", text("claimGenerator.REE"))])),
        );

    assert_eq!(original.actions.len(), 2);
    let assertion = original.to_assertion().expect("build_assertion");
    assert_eq!(assertion.mime_type(), "application/cbor");
    assert_eq!(assertion.label(), format!("{}.v2", Actions::LABEL));

    let result = Actions::from_assertion(&assertion).expect("extract_assertion");
    assert_eq!(result.actions.len(), 2);
    assert_eq!(result.actions[0].action(), original.actions[0].action());
    assert_eq!(
        result.actions[0].get_parameter("name"),
        original.actions[0].get_parameter("name")
    );
    assert_eq!(result.actions[1].action(), original.actions[1].action());
    assert_eq!(
        result.actions[1].get_parameter("name"),
        original.actions[1].get_parameter("name")
    );
    assert_eq!(result.actions[1].when(), original.actions[1].when());
    assert_eq!(
        result.actions[1].source_type().unwrap(),
        "digsrctype:algorithmicMedia"
    );
    assert_eq!(result.actions[1].changes(), original.actions()[1].changes());
    assert_eq!(
        result.metadata.unwrap().date_time(),
        original.metadata.unwrap().date_time()
    );
}

fn build_two_action_assertion(first_param_key: &str) -> Assertion {
    Actions::new()
        .add_action(
            Action::new("c2pa.cropped")
                .set_parameter(
                    first_param_key,
                    text(
                        r#"{
                        "left": 0,
                        "right": 2000,
                        "top": 1000,
                        "bottom": 4000
                    }"#,
                    ),
                )
                .unwrap(),
        )
        .add_action(
            Action::new("c2pa.filtered")
                .set_parameter("name", text("gaussian blur"))
                .unwrap()
                .set_when("2015-06-26T16:43:23+0200"),
        )
        .to_assertion()
        .unwrap()
}

#[test]
fn test_build_assertion() {
    let assertion = build_two_action_assertion("coordinate");

    let j = assertion.data();

    let from_j = Assertion::from_data_cbor(assertion.label(), j);

    // the re-wrapped envelope carries identical payload bytes
    assert_eq!(assertion.data(), from_j.data());
}

#[test]
fn test_binary_round_trip() {
    let assertion = build_two_action_assertion("name");

    let orig_bytes = assertion.data();

    let assertion_from_binary = Assertion::from_data_cbor(assertion.label(), orig_bytes);

    assert_eq!(assertion.label(), assertion_from_binary.label());

    // compare the data as bytes
    assert_eq!(orig_bytes, assertion_from_binary.data());
}

#[test]
fn test_json_round_trip() {
    let json: serde_json::Value = serde_json::from_str(
        r#"{
        "actions": [
              {
                "action": "c2pa.edited",
                "parameters": {
                  "description": "gradient",
                  "name": "any value"
                },
                "softwareAgent": "TestApp"
              },
              {
                "action": "c2pa.opened",
                "parameters": {
                  "description": "import",
                  "org.cai.ingredientIds": ["xmp.iid:7b57930e-2f23-47fc-affe-0400d70b738d"]
                },
                "digitalSourceType": "http://cv.iptc.org/newscodes/digitalsourcetype/algorithmicMedia",
                "softwareAgent": "TestApp 1.0"
              }
            ],
        "metadata": {
            "mytag": "myvalue"
        }
    }"#,
    )
    .unwrap();
    let original = Actions::from_json_value(&json).expect("from json");
    let assertion = original.to_assertion().expect("build_assertion");
    let result = Actions::from_assertion(&assertion).expect("extract_assertion");
    assert_eq!(original.actions, result.actions);
    assert_eq!(
        result.actions[0].software_agent().unwrap(),
        &SoftwareAgent::String("TestApp".to_string())
    );
}

#[test]
fn test_json_v2_round_trip() {
    let json: serde_json::Value = serde_json::from_str(
        r#"{
        "actions": [
            {
                "action": "c2pa.opened",
                "parameters": {
                    "description": "import",
                    "org.cai.ingredientIds": ["xmp.iid:7b57930e-2f23-47fc-affe-0400d70b738d"]
                },
                "digitalSourceType": "http://cv.iptc.org/newscodes/digitalsourcetype/algorithmicMedia",
                "softwareAgent": {
                    "name": "TestApp",
                    "version": "1.0",
                    "something": "else"
                }
            },
            {
                "action": "c2pa.edited",
                "parameters": {
                    "description": "gradient",
                    "name": "any value"
                }
            },
            {
                "action": "com.joesphoto.filter"
            },
            {
                "action": "c2pa.dubbed",
                "changes": [
                    {
                        "description": "translated to klingon",
                        "region": [
                            {
                                "type": "temporal"
                            }
                        ]
                    }
                ]
            }

        ],
        "templates": [
            {
                "action": "com.joesphoto.filter",
                "description": "Magic Filter",
                "digitalSourceType": "http://cv.iptc.org/newscodes/digitalsourcetype/compositeSynthetic",
                "softwareAgent" : {
                    "name": "Joe's Photo Editor",
                    "version": "2.0",
                    "schema.org.SoftwareApplication.operatingSystem": "Windows 10"
                },
                "softwareAgentIndex": 0,
                "templateParameters": {
                    "description": "Magic Filter",
                    "digitalSourceType": "http://cv.iptc.org/newscodes/digitalsourcetype/compositeSynthetic"
                }
            }
        ],
        "allActionsIncluded": true,
        "metadata": {
            "mytag": "myvalue"
        }
    }"#,
    )
    .unwrap();
    let original = Actions::from_json_value(&json).expect("from json");
    let assertion = original.to_assertion().expect("build_assertion");
    let result = Actions::from_assertion(&assertion).expect("extract_assertion");
    assert_eq!(result.label(), "c2pa.actions.v2");
    assert_eq!(original.actions, result.actions);
    assert_eq!(original.templates, result.templates);
    assert_eq!(original.all_actions_included, result.all_actions_included);
    assert_eq!(
        result.actions[3].changes().unwrap(),
        &vec![dict(vec![
            ("description", text("translated to klingon")),
            (
                "region",
                Value::Array(vec![dict(vec![("type", text("temporal"))])])
            ),
        ])]
    );
}

#[test]
fn test_shared_agent_list_and_index_tolerance() {
    let mut actions = Actions::new().add_action(
        // an out-of-range index is tolerated at write time and observed
        // by readers, never dereferenced blindly
        {
            let mut a = Action::new(c2pa_action::CREATED);
            a.software_agent_index = Some(5);
            a
        },
    );
    let cgi = ClaimGeneratorInfo::new("TestApp").set_version("1.0");
    actions.add_software_agent(cgi);
    assert_eq!(actions.software_agents().as_ref().map(|v| v.len()), Some(1));
    assert_eq!(
        actions.software_agent(0).and_then(|c| c.name()),
        Some(&"TestApp".to_string())
    );
    // the out-of-range index reads as absent, not as a crash
    assert!(actions.software_agent(5).is_none());
    assert_eq!(actions.actions[0].software_agent_index, Some(5));
}

#[test]
fn test_actions_version_and_label() {
    assert_eq!(Actions::version(), Some(2));
    assert_eq!(Actions::LABEL, "c2pa.actions");
    assert_eq!(Actions::new().label(), "c2pa.actions.v2");
}

#[test]
fn test_round_trip_witness() {
    let x = Actions::new()
        .add_action(make_action1())
        .add_action(Action::new("com.example.custom").set_reason("because"));
    let y = x.round_trip();
    assert_eq!(x.actions, y.actions);
    assert_eq!(x.templates, y.templates);
    assert_eq!(x.all_actions_included, y.all_actions_included);
}

#[test]
fn test_mutable_accessors() {
    // mutate an action in place through the actions list
    let mut actions = Actions::new().add_action(Action::new(c2pa_action::CREATED));
    actions.actions_mut()[0].software_agent_index = Some(0);
    assert_eq!(actions.actions[0].software_agent_index, Some(0));

    // swap a software agent in place
    let mut a = Action::new(c2pa_action::EDITED)
        .set_software_agent(SoftwareAgent::String("OldApp".to_string()));
    if let Some(agent) = a.software_agent_mut() {
        *agent = SoftwareAgent::String("NewApp".to_string());
    }
    assert_eq!(
        a.software_agent(),
        Some(&SoftwareAgent::String("NewApp".to_string()))
    );

    // rewrite a parameter value in place under the same key
    let mut a = Action::new(c2pa_action::EDITED)
        .set_parameter("name", text("before"))
        .unwrap();
    if let Some(v) = a.get_parameter_mut("name") {
        *v = text("after");
    }
    assert_eq!(a.get_parameter("name"), Some(&text("after")));
    assert!(a.get_parameter_mut("absent").is_none());
}

#[test]
fn test_from_json_str() {
    let x = Actions::from_json_str(
        r#"{"actions": [{"action": "c2pa.created", "digitalSourceType": "digsrctype:humanEdits"}]}"#,
    )
    .expect("decode");
    assert_eq!(x.actions.len(), 1);
    assert_eq!(x.actions[0].action(), "c2pa.created");
    assert_eq!(x.actions[0].source_type(), Some("digsrctype:humanEdits"));

    // text that is not JSON fails in the transcode
    assert_eq!(
        Actions::from_json_str("not json at all").unwrap_err(),
        c2pa::Error::Json
    );

    // well-formed JSON of the wrong shape fails in the typed decode
    assert_eq!(
        Actions::from_json_str("[1, 2, 3]").unwrap_err(),
        c2pa::Error::Decode
    );
}
