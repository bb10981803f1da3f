use feature_targeting::explicit;
use feature_targeting::expression::{Bool, Str, StrList};
use feature_targeting::features::{target, union};
use feature_targeting::implicit;
use feature_targeting::implicit::Feature;
use feature_targeting::matching;
use feature_targeting::request::Request;

fn req(pairs: &[(&str, &str)]) -> Request {
    let mut r = Request::new();
    r.insert("method".to_string(), "GET".to_string());
    r.insert("path".to_string(), "/".to_string());
    for (k, v) in pairs {
        r.insert(k.to_string(), v.to_string());
    }
    r
}

fn strs(xs: &[&str]) -> Vec<String> {
    xs.iter().map(|s| s.to_string()).collect()
}

fn test_config() -> explicit::Config {
    explicit::Config(vec![
        StrList::Extract {
            value: Box::new(Str::Attribute("host".to_owned())),
            regex: r#"f-([a-z]+)\.echo\.localhost"#.to_owned(),
        },
        StrList::Split {
            separator: " ".to_owned(),
            value: Str::Attribute("x-features".to_owned()),
        },
    ])
}

#[test]
fn union_feature() {
    assert_eq!(union(&strs(&["x y"]), &strs(&["z"])), "x y z");
    assert_eq!(union(&strs(&["x"]), &strs(&["y", "z"])), "x y z");
    assert_eq!(union(&strs(&["r"]), &strs(&["r", "s", "t"])), "r s t");
    assert_eq!(union(&strs(&["x", "y", "z"]), &strs(&["z"])), "x y z");
    assert_eq!(union(&strs(&["x", "z", "y"]), &strs(&[])), "x y z");
    assert_eq!(union(&strs(&["x", "z", "z", "y"]), &strs(&[])), "x y z");
}

#[test]
fn targeting() {
    let config = test_config();
    let cases: &[(&[(&str, &str)], &[&str])] = &[
        (&[("x-features", ""), ("host", "echo.localhost")], &[]),
        (&[("x-features", "one"), ("host", "echo.localhost")], &["one"]),
        (&[("x-features", "one two"), ("host", "echo.localhost")], &["one", "two"]),
        (&[("x-features", ""), ("host", "f-one.echo.localhost")], &["one"]),
        (&[("x-features", "one"), ("host", "f-two.echo.localhost")], &["one", "two"]),
    ];
    for (headers, expected) in cases {
        assert_eq!(explicit::from_request(&req(headers), &config), strs(expected));
    }
}

#[test]
fn matches_a_complex_expression() {
    let request = req(&[("accept-language", "en-GB,en;q=0.9,cs;q=0.8")]);
    let config = implicit::Config(vec![
        Feature {
            name: "english".into(),
            rule: Bool::AnyIn {
                list: StrList::Constant(vec!["en".into(), "en-US".into(), "en-GB".into()]),
                values: StrList::HttpQualityValue(Str::Attribute("accept-language".into())),
            },
        },
        Feature {
            name: "other-english".into(),
            rule: Bool::Or(vec![
                Bool::In {
                    list: StrList::HttpQualityValue(Str::Attribute("accept-language".into())),
                    value: Str::Constant("en".into()),
                },
                Bool::In {
                    list: StrList::HttpQualityValue(Str::Attribute("accept-language".into())),
                    value: Str::Constant("en-US".into()),
                },
                Bool::In {
                    list: StrList::HttpQualityValue(Str::Attribute("accept-language".into())),
                    value: Str::Constant("en-GB".into()),
                },
            ]),
        },
        Feature {
            name: "british".into(),
            rule: Bool::In {
                list: StrList::HttpQualityValue(Str::Attribute("accept-language".into())),
                value: Str::Constant("en-GB".into()),
            },
        },
        Feature {
            name: "german".into(),
            rule: Bool::In {
                list: StrList::HttpQualityValue(Str::Attribute("accept-language".into())),
                value: Str::Constant("de".into()),
            },
        },
    ]);
    assert_eq!(
        implicit::from_request(&request, &config),
        strs(&["english", "other-english", "british"])
    );
}

#[test]
fn substring_matching() {
    let cases: &[(&str, &str, Option<&str>)] = &[
        ("*", "foo", Some("foo")),
        ("a-*", "a-foo", Some("foo")),
        ("*-a", "foo-a", Some("foo")),
        ("aa-*-ab", "aa-foo-ab", Some("foo")),
        ("aa-*", "foo", None),
        ("aa-*-*-bb", "foo", None),
        ("aa", "foo", None),
    ];
    for (pattern, host, expected) in cases {
        assert_eq!(matching::match_host(host, pattern), expected.map(|s| s.to_string()));
    }
}

#[test]
fn matching_explicit_targeting() {
    let config = matching::ExplicitMatchingConfig {
        host: "f-*.echo.localhost".to_owned(),
        header: "x-features".to_owned(),
    };
    assert_eq!(
        matching::explicit(&req(&[("x-features", "one two"), ("host", "echo.localhost")]), &config),
        strs(&["one", "two"])
    );
    assert_eq!(
        matching::explicit(&req(&[("x-features", ""), ("host", "f-one.echo.localhost")]), &config),
        strs(&["one"])
    );
    assert_eq!(matching::implicit(&req(&[])), strs(&["new_feature"]));
}

#[test]
fn scenario_explicit_split() {
    let ec = explicit::Config(vec![StrList::Split {
        separator: " ".to_owned(),
        value: Str::Attribute("x-features".to_owned()),
    }]);
    let ic = implicit::Config(vec![]);
    assert_eq!(target(&req(&[("x-features", "beta gamma")]), &ec, &ic), "beta gamma");
}

#[test]
fn scenario_extract_and_split() {
    let ec = test_config();
    let ic = implicit::Config(vec![]);
    let request = req(&[("host", "f-one.echo.localhost"), ("x-features", "two")]);
    assert_eq!(target(&request, &ec, &ic), "one two");
}

#[test]
fn scenario_accept_language() {
    let ec = explicit::Config(vec![]);
    let ic = implicit::Config(vec![
        Feature {
            name: "english".into(),
            rule: Bool::AnyIn {
                list: StrList::Constant(vec!["en".into(), "en-US".into(), "en-GB".into()]),
                values: StrList::HttpQualityValue(Str::Attribute("accept-language".into())),
            },
        },
        Feature {
            name: "british".into(),
            rule: Bool::In {
                list: StrList::HttpQualityValue(Str::Attribute("accept-language".into())),
                value: Str::Constant("en-GB".into()),
            },
        },
        Feature {
            name: "german".into(),
            rule: Bool::In {
                list: StrList::HttpQualityValue(Str::Attribute("accept-language".into())),
                value: Str::Constant("de".into()),
            },
        },
    ]);
    let request = req(&[("accept-language", "en-GB,en;q=0.9,cs;q=0.8")]);
    assert_eq!(target(&request, &ec, &ic), "british english");
}

#[test]
fn scenario_duplicates_collapse() {
    let ec = explicit::Config(vec![StrList::Split {
        separator: " ".to_owned(),
        value: Str::Attribute("x-features".to_owned()),
    }]);
    let ic = implicit::Config(vec![Feature {
        name: "duplicate".into(),
        rule: Bool::Constant(true),
    }]);
    assert_eq!(target(&req(&[("x-features", "duplicate extra")]), &ec, &ic), "duplicate extra");
}

#[test]
fn scenario_missing_attribute() {
    let ec = explicit::Config(vec![StrList::Split {
        separator: " ".to_owned(),
        value: Str::Attribute("missing".to_owned()),
    }]);
    let ic = implicit::Config(vec![]);
    assert_eq!(target(&req(&[]), &ec, &ic), "");
}

#[test]
fn scenario_browser_rule() {
    let ec = explicit::Config(vec![]);
    let ic = implicit::Config(vec![Feature {
        name: "chrome".into(),
        rule: Bool::StrEq(Str::Browser, Str::Constant("Chrome".into())),
    }]);
    let request = req(&[(
        "user-agent",
        "Mozilla/5.0 (Macintosh; Intel Mac OS X 10_15_4) AppleWebKit/537.36 (KHTML, like Gecko) Chrome/83.0.4103.61 Safari/537.36",
    )]);
    assert_eq!(target(&request, &ec, &ic), "chrome");
}

#[test]
fn target_is_pure() {
    let ec = test_config();
    let ic = implicit::Config(vec![Feature {
        name: "always".into(),
        rule: Bool::Constant(true),
    }]);
    let request = req(&[("host", "f-one.echo.localhost"), ("x-features", "two zz aa")]);
    let first = target(&request, &ec, &ic);
    let second = target(&request, &ec, &ic);
    assert_eq!(first, second);
    assert_eq!(first, "aa always one two zz");
}

#[test]
fn output_is_sorted_and_deduplicated() {
    let out = union(&strs(&["zeta", "alpha", "zeta", "beta"]), &strs(&["alpha", "m"]));
    assert_eq!(out, "alpha beta m zeta");
    assert!(!out.starts_with(' '));
    assert!(!out.ends_with(' '));
}

#[test]
fn empty_input_split_yields_empty_list() {
    let e = StrList::Split {
        separator: ",".to_owned(),
        value: Str::Constant("".to_owned()),
    };
    let out = e.eval(&req(&[])).unwrap();
    assert_eq!(out, Vec::<String>::new());
}
