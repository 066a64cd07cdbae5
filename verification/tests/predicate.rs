//! Route predicates.

use kinetix::predicate::{
    decide, eligibility, eligibility_checked, eval, eval_checked, CmpOp, Eval, FactRef, Predicate,
    RequestFacts, TargetFacts, TargetPredicate, Tri, WhenUnknown,
};
use kinetix::types::Capabilities;
use serde_json::Value;

fn req<'a>(tools: bool) -> RequestFacts<'a> {
    RequestFacts {
        frontend: "openai",
        requested_model: "coder",
        requested_route: None,
        key_tag: Some("dev"),
        has_tools: tools,
        has_images: false,
        has_reasoning: false,
        input_tokens: 100,
    }
}

fn target<'a>(caps: &'a Capabilities, raw: &'a Value) -> TargetFacts<'a> {
    TargetFacts {
        model_id: "m1",
        model_display: "Model One",
        provider_id: "p1",
        provider_name: "Provider One",
        capabilities: caps,
        capabilities_raw: raw,
        context_window: Some(128_000),
        max_output_tokens: None,
    }
}

fn json(text: &str) -> Value {
    serde_json::from_str(text).unwrap()
}

fn fact(name: &str, op: CmpOp, value: &str) -> Predicate {
    Predicate::Cmp {
        fact: FactRef::Bare(name.to_string()),
        op,
        value: json(value),
    }
}

fn vision() -> TargetPredicate {
    TargetPredicate {
        expr: Some(Predicate::Cmp {
            fact: FactRef::Detailed {
                name: "target_capability".to_string(),
                arg: Some("vision".to_string()),
            },
            op: CmpOp::Eq,
            value: json("true"),
        }),
        when_unknown: WhenUnknown::Skip,
    }
}

#[test]
fn three_valued_and() {
    let p = Predicate::And {
        and: vec![
            fact("has_tools", CmpOp::Eq, "true"),
            fact("has_images", CmpOp::Eq, "false"),
        ],
    };
    let caps = Capabilities::default();
    let raw = json("{}");
    assert!(eval(&p, &req(true), &target(&caps, &raw)).result.is_true());
    assert_eq!(eval(&p, &req(false), &target(&caps, &raw)).result, Tri::False);
}

#[test]
fn unknown_capability_is_unknown_then_skipped() {
    let pred = vision();
    let caps = Capabilities::default();
    let raw = json("{}");
    let e = eligibility(&pred, &req(true), &target(&caps, &raw));
    assert_eq!(e.result, Tri::Unknown);
    assert!(!e.eligible);
}

#[test]
fn declared_capability_is_known() {
    let pred = vision();
    let caps = Capabilities { vision: true, ..Default::default() };
    let raw = json("{\"vision\": true}");
    let e = eligibility(&pred, &req(true), &target(&caps, &raw));
    assert!(e.eligible);
}

#[test]
fn numeric_comparison() {
    let p = fact("input_tokens", CmpOp::Lt, "200");
    let caps = Capabilities::default();
    let raw = json("{}");
    assert!(eval(&p, &req(true), &target(&caps, &raw)).result.is_true());
}

#[test]
fn or_and_not_are_three_valued() {
    let caps = Capabilities::default();
    let raw = json("{}");
    let unknown = vision().expr.unwrap();
    let or = Predicate::Or { or: vec![unknown, Predicate::Const(true)] };
    assert_eq!(eval(&or, &req(true), &target(&caps, &raw)).result, Tri::True);
    let not = Predicate::Not { not: Box::new(vision().expr.unwrap()) };
    assert_eq!(eval(&not, &req(true), &target(&caps, &raw)).result, Tri::Unknown);
    let not = Predicate::Not { not: Box::new(Predicate::Const(false)) };
    assert_eq!(eval(&not, &req(true), &target(&caps, &raw)).result, Tri::True);
}

#[test]
fn lists_and_parts_of_texts() {
    let caps = Capabilities::default();
    let raw = json("{}");
    let t = target(&caps, &raw);
    let r = req(true);
    assert!(eval(&fact("key_tag", CmpOp::In, "[\"dev\",\"ops\"]"), &r, &t).result.is_true());
    assert!(eval(&fact("key_tag", CmpOp::NotIn, "[\"ops\"]"), &r, &t).result.is_true());
    assert!(eval(&fact("requested_model", CmpOp::Contains, "\"cod\""), &r, &t).result.is_true());
    assert!(eval(&fact("input_tokens", CmpOp::Gte, "100.5"), &r, &t).result == Tri::False);
    assert!(eval(&fact("input_tokens", CmpOp::Gte, "99.5"), &r, &t).result == Tri::True);
}

#[test]
fn an_unknown_fact_is_not_guessed() {
    let caps = Capabilities::default();
    let raw = json("{}");
    let p = fact("weather", CmpOp::Eq, "true");
    assert_eq!(eval(&p, &req(true), &target(&caps, &raw)).result, Tri::Unknown);
}

#[test]
fn unknown_is_decided_by_the_setting() {
    let unknown = || Eval { result: Tri::Unknown, explanation: "?".to_string() };
    assert!(!decide(unknown(), WhenUnknown::Skip).eligible);
    assert!(decide(unknown(), WhenUnknown::Allow).eligible);
    let no = Eval { result: Tri::False, explanation: "no".to_string() };
    assert!(!decide(no, WhenUnknown::Allow).eligible);
}

#[test]
fn an_empty_predicate_admits_every_target() {
    let p = TargetPredicate::parse("{}", None, None);
    assert!(p.is_empty());
    let caps = Capabilities::default();
    let raw = json("{}");
    assert!(eligibility(&p, &req(true), &target(&caps, &raw)).eligible);
    assert!(eligibility_checked(&p, &req(true), &target(&caps, &raw)).unwrap().eligible);
}

#[test]
fn explanations_name_the_fact_and_the_value() {
    let caps = Capabilities::default();
    let raw = json("{}");
    let e = eval_checked(&fact("has_tools", CmpOp::Eq, "true"), &req(true), &target(&caps, &raw));
    let e = e.unwrap();
    assert!(e.explanation.contains("has_tools"));
    assert!(e.explanation.contains("true"));
}

#[test]
fn names_of_results() {
    assert_eq!(Tri::from_bool(true).as_str(), "true");
    assert_eq!(Tri::from_bool(false).as_str(), "false");
    assert_eq!(Tri::Unknown.as_str(), "unknown");
    let f = FactRef::Detailed { name: "n".to_string(), arg: Some("a".to_string()) };
    assert_eq!(f.name(), "n");
    assert_eq!(f.arg(), Some("a"));
    assert_eq!(FactRef::Bare("b".to_string()).arg(), None);
}
