use feature_targeting::codec::{explicit_to_json, implicit_to_json};
use feature_targeting::decode::{explicit_from_json, implicit_from_json};
use feature_targeting::explicit;
use feature_targeting::expression::{Bool, Num, Str, StrList};
use feature_targeting::implicit;
use feature_targeting::implicit::Feature;

fn explicit_config() -> explicit::Config {
    explicit::Config(vec![
        StrList::Extract {
            value: Box::new(Str::Attribute("host".to_owned())),
            regex: r#"f-([a-z]+)\.echo\.localhost"#.to_owned(),
        },
        StrList::Split {
            separator: " ".to_owned(),
            value: Str::Attribute("x-features".to_owned()),
        },
    ])
}

fn implicit_config() -> implicit::Config {
    implicit::Config(vec![
        Feature {
            name: "english".into(),
            rule: Bool::AnyIn {
                list: StrList::Constant(vec!["en".into(), "en-US".into(), "en-GB".into()]),
                values: StrList::HttpQualityValue(Str::Attribute("accept-language".into())),
            },
        },
        Feature {
            name: "other-english".into(),
            rule: Bool::Or(vec![
                Bool::In {
                    list: StrList::HttpQualityValue(Str::Attribute("accept-language".into())),
                    value: Str::Constant("en".into()),
                },
                Bool::In {
                    list: StrList::HttpQualityValue(Str::Attribute("accept-language".into())),
                    value: Str::Constant("en-US".into()),
                },
                Bool::In {
                    list: StrList::HttpQualityValue(Str::Attribute("accept-language".into())),
                    value: Str::Constant("en-GB".into()),
                },
            ]),
        },
        Feature {
            name: "british".into(),
            rule: Bool::In {
                list: StrList::HttpQualityValue(Str::Attribute("accept-language".into())),
                value: Str::Constant("en-GB".into()),
            },
        },
    ])
}

#[test]
fn explicit_serialises_to_json() {
    let mut expected = String::new();
    expected.push_str(r#"[{"extract":{"regex":"f-([a-z]+)\\.echo\\.localhost","value":{"attribute":"host"}}},"#);
    expected.push_str(r#"{"split":{"separator":" ","value":{"attribute":"x-features"}}}]"#);
    assert_eq!(explicit_to_json(&explicit_config()), expected);
}

#[test]
fn implicit_serialises_to_json() {
    let mut expected = String::new();
    expected.push_str(r#"[{"name":"english","rule":{"any_in":{"list":{"constant":["en","en-US","en-GB"]},"#);
    expected.push_str(r#""values":{"http_quality_value":{"attribute":"accept-language"}}}}},"#);
    expected.push_str(r#"{"name":"other-english","rule":{"or":["#);
    expected.push_str(r#"{"in":{"list":{"http_quality_value":{"attribute":"accept-language"}},"value":{"constant":"en"}}},"#);
    expected.push_str(r#"{"in":{"list":{"http_quality_value":{"attribute":"accept-language"}},"value":{"constant":"en-US"}}},"#);
    expected.push_str(r#"{"in":{"list":{"http_quality_value":{"attribute":"accept-language"}},"value":{"constant":"en-GB"}}}]}},"#);
    expected.push_str(r#"{"name":"british","rule":{"in":{"list":{"http_quality_value":{"attribute":"accept-language"}},"value":{"constant":"en-GB"}}}}]"#);
    assert_eq!(implicit_to_json(&implicit_config()), expected);
}

#[test]
fn explicit_round_trips() {
    let json = explicit_to_json(&explicit_config());
    let back = explicit_from_json(&json).expect("canonical text must be read back");
    assert_eq!(explicit_to_json(&back), json);
}

#[test]
fn implicit_round_trips() {
    let json = implicit_to_json(&implicit_config());
    let back = implicit_from_json(&json).expect("canonical text must be read back");
    assert_eq!(implicit_to_json(&back), json);
}

#[test]
fn full_variant_round_trip() {
    let config = implicit::Config(vec![Feature {
        name: "kitchen \"sink\"\n".into(),
        rule: Bool::And(vec![
            Bool::Constant(true),
            Bool::Not(Box::new(Bool::Constant(false))),
            Bool::Gte(Num::Constant("1.5e-3".into()), Num::Rank(Str::Constant("k".into()))),
            Bool::Matches("a\\d+".into(), Str::Base64(Box::new(Str::Cookie("c".into())))),
            Bool::JsonPointer {
                pointer: "/a/b".into(),
                value: Str::First(Box::new(StrList::Constant(vec!["{}".into()]))),
            },
            Bool::StrEq(
                Str::Last(Box::new(StrList::Extract {
                    regex: "(x)(y)".into(),
                    value: Box::new(Str::OperatingSystem),
                })),
                Str::JsonPointer {
                    pointer: "/p".into(),
                    value: Box::new(Str::Extract {
                        regex: "q(.)".into(),
                        value: Box::new(Str::BrowserVersion),
                    }),
                },
            ),
            Bool::Lt(
                Num::Attribute("n".into()),
                Num::JsonPointer { pointer: "/m".into(), value: Str::Browser },
            ),
        ]),
    }]);
    let json = implicit_to_json(&config);
    let back = implicit_from_json(&json).expect("canonical text must be read back");
    assert_eq!(implicit_to_json(&back), json);
}

#[test]
fn decode_rejects_broken_text() {
    assert!(explicit_from_json("not json").is_none());
    assert!(explicit_from_json("[{\"split\":{").is_none());
    assert!(implicit_from_json("{}").is_none());
}


#[test]
fn control_character_round_trips() {
    let config = explicit::Config(vec![StrList::Split {
        separator: "\u{1}\u{1f}".to_owned(),
        value: Str::Constant("a\u{8}b\u{c}".to_owned()),
    }]);
    let json = explicit_to_json(&config);
    assert!(json.contains("\\u0001"));
    assert!(json.contains("\\u001f"));
    let back = explicit_from_json(&json).expect("canonical text must be read back");
    assert_eq!(explicit_to_json(&back), json);
}
