use feature_targeting::auth::{get_claims, logout, AuthError, AuthResponse};
use feature_targeting::eval::{get_cookie, EvalError};
use feature_targeting::expression::{Bool, Num, Str, StrList};
use feature_targeting::num::{dec_cmp, make_dec};
use feature_targeting::qvalue::parse_q_value;
use feature_targeting::request::Request;

fn req(pairs: &[(&str, &str)]) -> Request {
    let mut r = Request::new();
    for (k, v) in pairs {
        r.insert(k.to_string(), v.to_string());
    }
    r
}

fn strs(xs: &[&str]) -> Vec<String> {
    xs.iter().map(|s| s.to_string()).collect()
}

fn sl(xs: &[&str]) -> StrList {
    StrList::Constant(strs(xs))
}

#[test]
fn evaluate_boolean_expressions() {
    let r = req(&[("hello", "world")]);
    assert_eq!(Bool::Constant(true).eval(&r), Ok(true));
    assert_eq!(Bool::Attribute("hello".into()).eval(&r), Ok(true));
    assert!(matches!(
        Bool::Attribute("world".into()).eval(&r),
        Err(EvalError::MissingAttribute(_))
    ));
    let in_yes = Bool::In { list: sl(&["a", "b"]), value: Str::Constant("b".into()) };
    assert_eq!(in_yes.eval(&r), Ok(true));
    let in_no = Bool::In { list: sl(&["a", "b"]), value: Str::Constant("c".into()) };
    assert_eq!(in_no.eval(&r), Ok(false));
    let all_yes = Bool::AllIn { list: sl(&["a", "b"]), values: sl(&["a", "b"]) };
    assert_eq!(all_yes.eval(&r), Ok(true));
    let all_no = Bool::AllIn { list: sl(&["a", "b"]), values: sl(&["a", "c"]) };
    assert_eq!(all_no.eval(&r), Ok(false));
    let any_yes = Bool::AnyIn { list: sl(&["a", "b"]), values: sl(&["a", "c"]) };
    assert_eq!(any_yes.eval(&r), Ok(true));
    let any_no = Bool::AnyIn { list: sl(&["a", "b"]), values: sl(&["c", "d"]) };
    assert_eq!(any_no.eval(&r), Ok(false));
    let eq = Bool::StrEq(Str::Constant("foo".into()), Str::Constant("foo".into()));
    assert_eq!(eq.eval(&r), Ok(true));
    let ne = Bool::StrEq(Str::Constant("foo".into()), Str::Constant("bar".into()));
    assert_eq!(ne.eval(&r), Ok(false));
    assert_eq!(Bool::Not(Box::new(Bool::Constant(true))).eval(&r), Ok(false));
    assert_eq!(Bool::And(vec![Bool::Constant(true), Bool::Constant(true)]).eval(&r), Ok(true));
    assert_eq!(Bool::And(vec![Bool::Constant(true), Bool::Constant(false)]).eval(&r), Ok(false));
    assert_eq!(Bool::Or(vec![Bool::Constant(true), Bool::Constant(false)]).eval(&r), Ok(true));
    assert_eq!(Bool::Or(vec![Bool::Constant(false), Bool::Constant(false)]).eval(&r), Ok(false));
    assert!(matches!(
        Bool::And(vec![Bool::Constant(true), Bool::Attribute("nope".into())]).eval(&r),
        Err(EvalError::MissingAttribute(_))
    ));
}

#[test]
fn evaluate_numerical_expressions() {
    let r = req(&[("number", "1.4"), ("not-number", "hi")]);
    assert!(Num::Constant("10.0".into()).eval(&r).is_ok());
    assert!(Num::Attribute("number".into()).eval(&r).is_ok());
    assert!(matches!(
        Num::Attribute("nope".into()).eval(&r),
        Err(EvalError::MissingAttribute(_))
    ));
    assert!(matches!(
        Num::Attribute("not-number".into()).eval(&r),
        Err(EvalError::ParseFailure)
    ));
    let a = Num::Attribute("number".into()).eval(&r).unwrap();
    let b = Num::Constant("1.4".into()).eval(&r).unwrap();
    assert_eq!(dec_cmp(&a, &b), 0);
    let c = Num::Constant("1.40e0".into()).eval(&r).unwrap();
    assert_eq!(dec_cmp(&a, &c), 0);
}

#[test]
fn numeric_comparisons() {
    let r = req(&[]);
    let num = |t: &str| Num::Constant(t.to_string());
    assert_eq!(Bool::NumEq(num("1.3"), num("1.3")).eval(&r), Ok(true));
    assert_eq!(Bool::NumEq(num("1.0"), num("1.3")).eval(&r), Ok(false));
    assert_eq!(Bool::Gt(num("1.3"), num("1.2")).eval(&r), Ok(true));
    assert_eq!(Bool::Gt(num("1.2"), num("1.3")).eval(&r), Ok(false));
    assert_eq!(Bool::Gt(num("1.3"), num("1.3")).eval(&r), Ok(false));
    assert_eq!(Bool::Gte(num("1.3"), num("1.2")).eval(&r), Ok(true));
    assert_eq!(Bool::Gte(num("1.2"), num("1.3")).eval(&r), Ok(false));
    assert_eq!(Bool::Gte(num("1.3"), num("1.3")).eval(&r), Ok(true));
    assert_eq!(Bool::Lt(num("1.3"), num("1.2")).eval(&r), Ok(false));
    assert_eq!(Bool::Lt(num("1.2"), num("1.3")).eval(&r), Ok(true));
    assert_eq!(Bool::Lte(num("1.2"), num("1.3")).eval(&r), Ok(true));
    assert_eq!(Bool::Lte(num("1.3"), num("1.3")).eval(&r), Ok(true));
    assert_eq!(Bool::Lt(num("-2"), num("-1")).eval(&r), Ok(true));
    assert_eq!(Bool::Lt(num("-1"), num("0")).eval(&r), Ok(true));
    assert_eq!(Bool::Lt(num("0.05"), num("0.1")).eval(&r), Ok(true));
    assert_eq!(Bool::NumEq(num("0"), num("-0.0")).eval(&r), Ok(true));
}

#[test]
fn rank_is_stable_and_in_range() {
    let r = req(&[("user", "alice")]);
    let hundred = make_dec(false, vec![1], 3);
    for input in ["alice", "bob", "", "a longer cohort key"] {
        let e = Num::Rank(Str::Constant(input.to_string()));
        let first = e.eval(&r).unwrap();
        let second = e.eval(&r).unwrap();
        assert_eq!(dec_cmp(&first, &second), 0);
        assert!(!first.neg);
        assert_eq!(dec_cmp(&first, &hundred), -1);
    }
}

#[test]
fn regex_matching() {
    let r = req(&[]);
    let yes = Bool::Matches(r#"\+440?[0-9]{10}"#.into(), Str::Constant("+4407945123456".into()));
    assert_eq!(yes.eval(&r), Ok(true));
    let no = Bool::Matches(r#"\+440?[0-9]{10}"#.into(), Str::Constant("+47945123456".into()));
    assert_eq!(no.eval(&r), Ok(false));
    let bad = Bool::Matches("(".into(), Str::Constant("x".into()));
    assert!(matches!(bad.eval(&r), Err(EvalError::RegexError)));
}

#[test]
fn regex_extraction() {
    let r = req(&[("host", "f-one.echo.localhost")]);
    let one = Str::Extract {
        regex: r#"f-([a-z]+)\.echo\.localhost"#.into(),
        value: Box::new(Str::Attribute("host".into())),
    };
    assert_eq!(one.eval(&r), Ok("one".to_string()));
    let miss = Str::Extract {
        regex: r#"f-([a-z]+)\.other"#.into(),
        value: Box::new(Str::Attribute("host".into())),
    };
    assert!(matches!(miss.eval(&r), Err(EvalError::RegexMiss)));
    let groups = StrList::Extract {
        regex: "([a-z]+)-([a-z]+)".into(),
        value: Box::new(Str::Constant("ab-cd".into())),
    };
    assert_eq!(groups.eval(&r), Ok(strs(&["ab", "cd"])));
}

#[test]
fn base64_decoding() {
    let r = req(&[]);
    let ok = Str::Base64(Box::new(Str::Constant("aGVsbG8=".into())));
    assert_eq!(ok.eval(&r), Ok("hello".to_string()));
    let bad = Str::Base64(Box::new(Str::Constant("!!!".into())));
    assert!(matches!(bad.eval(&r), Err(EvalError::ParseFailure)));
}

#[test]
fn json_pointer_lookups() {
    let r = req(&[]);
    let b = Bool::JsonPointer {
        pointer: "/foo/0".into(),
        value: Str::Constant(r#"{"foo":[true]}"#.into()),
    };
    assert_eq!(b.eval(&r), Ok(true));
    let wrong = Bool::JsonPointer {
        pointer: "/foo/0".into(),
        value: Str::Constant(r#"{"foo":[0.3]}"#.into()),
    };
    assert!(matches!(wrong.eval(&r), Err(EvalError::TypeMismatch)));
    let not_json = Bool::JsonPointer {
        pointer: "/foo".into(),
        value: Str::Constant("not json".into()),
    };
    assert!(matches!(not_json.eval(&r), Err(EvalError::ParseFailure)));
    let s = Str::JsonPointer {
        pointer: "/foo/0".into(),
        value: Box::new(Str::Constant(r#"{"foo":["bar"]}"#.into())),
    };
    assert_eq!(s.eval(&r), Ok("bar".to_string()));
    let n = Num::JsonPointer {
        pointer: "/foo/0".into(),
        value: Str::Constant(r#"{"foo":[0.3]}"#.into()),
    };
    let expected = Num::Constant("0.3".into()).eval(&r).unwrap();
    assert_eq!(dec_cmp(&n.eval(&r).unwrap(), &expected), 0);
}

#[test]
fn cookie_lookups() {
    let with = req(&[("cookie", "a=1; b=2")]);
    assert_eq!(get_cookie(&with, "a"), Ok("1".to_string()));
    assert_eq!(get_cookie(&with, "b"), Ok("2".to_string()));
    assert!(matches!(get_cookie(&with, "c"), Err(EvalError::MalformedHeader)));
    let without = req(&[]);
    assert!(matches!(get_cookie(&without, "a"), Err(EvalError::MissingAttribute(_))));
    let e = Str::Cookie("b".into());
    assert_eq!(e.eval(&with), Ok("2".to_string()));
}

#[test]
fn user_agent_fields() {
    let r = req(&[(
        "user-agent",
        "Mozilla/5.0 (Macintosh; Intel Mac OS X 10_15_4) AppleWebKit/537.36 (KHTML, like Gecko) Chrome/83.0.4103.61 Safari/537.36",
    )]);
    assert_eq!(Str::Browser.eval(&r), Ok("Chrome".to_string()));
    assert_eq!(Str::BrowserVersion.eval(&r), Ok("83.0.4103.61".to_string()));
    assert_eq!(Str::OperatingSystem.eval(&r), Ok("Mac OSX".to_string()));
    let none = req(&[]);
    assert!(matches!(Str::Browser.eval(&none), Err(EvalError::MissingAttribute(_))));
}

#[test]
fn first_and_last() {
    let r = req(&[]);
    assert_eq!(Str::First(Box::new(sl(&["a", "b", "c"]))).eval(&r), Ok("a".to_string()));
    assert_eq!(Str::Last(Box::new(sl(&["a", "b", "c"]))).eval(&r), Ok("c".to_string()));
    assert!(matches!(
        Str::First(Box::new(sl(&[]))).eval(&r),
        Err(EvalError::EmptyList)
    ));
    assert!(matches!(
        Str::Last(Box::new(sl(&[]))).eval(&r),
        Err(EvalError::EmptyList)
    ));
}

#[test]
fn quality_value_ordering() {
    assert_eq!(
        parse_q_value("*/*;q=0.3, text/plain;q=0.7, text/html, text/*;q=0.5"),
        strs(&["text/html", "text/plain", "text/*", "*/*"])
    );
    assert_eq!(parse_q_value("a;q=0.5, b;q=0.5, c;q=0.5"), strs(&["a", "b", "c"]));
    assert_eq!(parse_q_value("a;q=bad, b;q=0.5"), strs(&["a", "b"]));
}

#[test]
fn split_with_empty_separator() {
    let r = req(&[]);
    let e = StrList::Split {
        separator: "".to_owned(),
        value: Str::Constant("ab".to_owned()),
    };
    assert_eq!(e.eval(&r), Ok(strs(&["", "a", "b", ""])));
}

#[test]
fn reads_identity_claims() {
    let auth = AuthResponse {
        state: "s".into(),
        access_token: "t".into(),
        token_type: "Bearer".into(),
        expires_in: 3600,
        scope: "openid".into(),
        id_token: "head.eyJzdWIiOiJ1LTEiLCJlbWFpbCI6InVAZXhhbXBsZS50ZXN0IiwibmFtZSI6IlUgT25lIn0=.sig"
            .into(),
        authuser: 0,
        hd: "".into(),
        prompt: "".into(),
    };
    let claims = get_claims(&auth).unwrap();
    assert_eq!(claims.sub, "u-1");
    assert_eq!(claims.email, "u@example.test");
    assert_eq!(claims.name, "U One");
    let bad = AuthResponse { id_token: "nodots".into(), ..auth };
    assert!(matches!(get_claims(&bad), Err(AuthError::MalformedToken)));
    assert!(logout().is_ok());
}
