use mcproxy::json::status_to_json;
use mcproxy::status::{Player, Players, StatusResponse, Version};
use mcproxy::text::{
    Color, ColorName, ElaboratedTextComponent, RawTextComponent, RawTextComponentObject,
};

fn obj(text: &str) -> RawTextComponentObject {
    RawTextComponentObject {
        text: String::from(text),
        bold: None,
        italic: None,
        underlined: None,
        strikethrough: None,
        obfuscated: None,
        color: None,
        extra: None,
    }
}

#[test]
fn status_json_is_exact() {
    let response = StatusResponse {
        version: Version {
            name: String::from("1.20.4"),
            protocol: 765,
        },
        players: Some(Players {
            max: 20,
            online: 3,
            sample: vec![
                Player {
                    name: String::from("alice"),
                    id: String::from("00000000-0000-0000-0000-000000000001"),
                },
                Player {
                    name: String::from("bob"),
                    id: String::from("00000000-0000-0000-0000-000000000002"),
                },
            ],
        }),
        description: RawTextComponent::String(String::from("A \"quoted\"\nmotd")),
        favicon: Some(String::from("data:image/png;base64,AQID")),
    };
    let json = status_to_json(&response);
    let expected = String::from("{\"version\":{\"name\":\"1.20.4\",\"protocol\":765},\"players\":{\"max\":20,\"online\":3,\"sample\":[{\"name\":\"alice\",\"id\":\"00000000-0000-0000-0000-000000000001\"},{\"name\":\"bob\",\"id\":\"00000000-0000-0000-0000-000000000002\"}]},\"description\":\"A \\\"quoted\\\"\\nmotd\",\"favicon\":\"data:image/png;base64,AQID\"}");
    assert_eq!(json, expected);
    // the document is well-formed JSON with the right shape
    let value: serde_json::Value = serde_json::from_str(&json).unwrap();
    assert_eq!(value["version"]["name"], "1.20.4");
    assert_eq!(value["players"]["online"], 3);
    assert_eq!(value["players"]["sample"][1]["name"], "bob");
}

#[test]
fn component_json_with_styles_and_children() {
    let component = RawTextComponent::Object(RawTextComponentObject {
        bold: Some(true),
        color: Some(Color::Named(ColorName::DarkPurple)),
        extra: Some(vec![
            RawTextComponent::String(String::from("tail")),
            RawTextComponent::Object(RawTextComponentObject {
                italic: Some(false),
                color: Some(Color::Hex(String::from("#123456"))),
                ..obj("end")
            }),
        ]),
        ..obj("head")
    });
    let response = StatusResponse {
        version: Version {
            name: String::from("x"),
            protocol: 0,
        },
        players: None,
        description: component,
        favicon: None,
    };
    let json = status_to_json(&response);
    let expected = String::from("{\"version\":{\"name\":\"x\",\"protocol\":0},\"description\":{\"text\":\"head\",\"bold\":true,\"color\":\"dark_purple\",\"extra\":[\"tail\",{\"text\":\"end\",\"italic\":false,\"color\":\"#123456\"}]}}");
    assert_eq!(json, expected);
    assert!(serde_json::from_str::<serde_json::Value>(&json).is_ok());
}

#[test]
fn control_characters_escape_as_serde_does() {
    let response = StatusResponse {
        version: Version {
            name: String::from("\u{1}\u{8}\t\n\u{c}\r\u{1f}\\"),
            protocol: 0,
        },
        players: None,
        description: RawTextComponent::String(String::new()),
        favicon: None,
    };
    let json = status_to_json(&response);
    assert_eq!(
        json,
        "{\"version\":{\"name\":\"\\u0001\\b\\t\\n\\f\\r\\u001f\\\\\",\"protocol\":0},\"description\":\"\"}"
    );
}

#[test]
fn array_component_promotes_to_its_head() {
    let array = RawTextComponent::Array(vec![
        RawTextComponent::String(String::from("first")),
        RawTextComponent::String(String::from("second")),
        RawTextComponent::String(String::from("third")),
    ]);
    let object = RawTextComponentObject::from_component(array);
    assert_eq!(object.text, "first");
    let extra = object.extra.unwrap();
    assert_eq!(extra.len(), 2);
    assert!(matches!(&extra[0], RawTextComponent::String(s) if s == "second"));
}

#[test]
fn empty_array_component_is_the_empty_object() {
    let object = RawTextComponentObject::from_component(RawTextComponent::Array(Vec::new()));
    assert_eq!(object.text, "");
    assert!(object.extra.is_none());
}

#[test]
fn elaboration_inherits_and_overrides_styles() {
    let component = RawTextComponent::Object(RawTextComponentObject {
        bold: Some(true),
        color: Some(Color::Named(ColorName::Red)),
        extra: Some(vec![
            RawTextComponent::String(String::from("child")),
            RawTextComponent::Object(RawTextComponentObject {
                bold: Some(false),
                ..obj("quiet")
            }),
        ]),
        ..obj("parent")
    });
    let runs = ElaboratedTextComponent::from_text_component(component);
    assert_eq!(runs.len(), 3);
    assert_eq!(runs[0].text, "parent");
    assert!(runs[0].bold);
    assert!(matches!(runs[0].color, Some(Color::Named(ColorName::Red))));
    // the plain child inherits both style fields
    assert_eq!(runs[1].text, "child");
    assert!(runs[1].bold);
    assert!(matches!(runs[1].color, Some(Color::Named(ColorName::Red))));
    // the second child overrides bold but inherits the color
    assert_eq!(runs[2].text, "quiet");
    assert!(!runs[2].bold);
    assert!(matches!(runs[2].color, Some(Color::Named(ColorName::Red))));
}

#[test]
fn formatting_codes_split_into_styled_runs() {
    let runs = ElaboratedTextComponent::decode_formatting_codes("Hello \u{a7}lbold\u{a7}r plain");
    assert_eq!(runs.len(), 3);
    assert_eq!(runs[0].text, "Hello ");
    assert!(!runs[0].bold);
    assert_eq!(runs[1].text, "bold");
    assert!(runs[1].bold);
    assert_eq!(runs[2].text, " plain");
    assert!(!runs[2].bold);
}

#[test]
fn formatting_code_at_the_start_emits_no_empty_run() {
    let runs = ElaboratedTextComponent::decode_formatting_codes("\u{a7}aHi");
    assert_eq!(runs.len(), 1);
    assert_eq!(runs[0].text, "Hi");
    assert!(matches!(runs[0].color, Some(Color::Named(ColorName::Green))));
}

#[test]
fn color_codes_round_trip() {
    let all = [
        ColorName::Black,
        ColorName::DarkBlue,
        ColorName::DarkGreen,
        ColorName::DarkAqua,
        ColorName::DarkRed,
        ColorName::DarkPurple,
        ColorName::Gold,
        ColorName::Gray,
        ColorName::DarkGray,
        ColorName::Blue,
        ColorName::Green,
        ColorName::Aqua,
        ColorName::Red,
        ColorName::LightPurple,
        ColorName::Yellow,
        ColorName::White,
    ];
    for name in all {
        assert_eq!(ColorName::from_code(name.to_code()), Some(name));
    }
    assert_eq!(ColorName::from_code('z'), None);
    assert_eq!(ColorName::Gold.foreground_color(), "#ffaa00");
    assert_eq!(ColorName::Gold.background_color(), "#2a2a00");
    assert_eq!(
        Color::Hex(String::from("#abcdef")).foreground_color(),
        "#abcdef"
    );
}

#[test]
fn oversized_status_response_is_refused_not_truncated() {
    let huge: String = std::iter::repeat('a').take(2_200_000).collect();
    let response = StatusResponse {
        version: Version {
            name: String::from("1.20"),
            protocol: 764,
        },
        players: None,
        description: RawTextComponent::String(String::new()),
        favicon: Some(huge),
    };
    assert!(matches!(
        mcproxy::router::write_status_response(&response),
        Err(mcproxy::error::CodecError::StringTooLong)
    ));
}

#[test]
fn favicon_replacement_keeps_the_rest_of_the_response() {
    let response = StatusResponse {
        version: Version {
            name: String::from("1.20"),
            protocol: 764,
        },
        players: None,
        description: RawTextComponent::String(String::from("motd")),
        favicon: Some(String::from("icon.png")),
    };
    let inlined = mcproxy::config::with_favicon_data(response, &vec![1, 2, 3]);
    assert_eq!(inlined.favicon.as_deref(), Some("data:image/png;base64,AQID"));
    assert_eq!(inlined.version.name, "1.20");
    assert!(matches!(&inlined.description, RawTextComponent::String(s) if s == "motd"));
}
