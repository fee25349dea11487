use bouncer::error::Error;
use bouncer::llm::{
    build_question_user_content, build_verification_user_content, extract_json_object, missing_object_error,
    question_from_reply, verdict_from_wire, verdict_reply, Verdict,
};

/// Reads a verdict reply: locate the object, decode its `verdict` and
/// `reason` fields (here with `serde_json::Value`), then interpret them.
fn parse_verdict(raw: &str) -> Result<Verdict, Error> {
    let Some(object) = extract_json_object(raw) else {
        return Err(missing_object_error(raw));
    };
    let wire = match serde_json::from_str::<serde_json::Value>(&object) {
        Ok(value) => match value.get("verdict").and_then(|v| v.as_str()) {
            Some(verdict) => {
                let reason = value.get("reason").and_then(|r| r.as_str()).unwrap_or("").to_string();
                Ok((verdict.to_string(), reason))
            }
            None => Err("missing field `verdict`".to_string()),
        },
        Err(e) => Err(e.to_string()),
    };
    verdict_from_wire(raw, wire)
}

#[test]
fn parse_verdict_accepts_known_values() {
    let v = parse_verdict(r#"{"verdict":"accept","reason":"ok"}"#).unwrap();
    assert!(v.accept);
    let v = parse_verdict(r#"{"verdict":"reject","reason":"bad"}"#).unwrap();
    assert!(!v.accept);
}

#[test]
fn parse_verdict_rejects_unknown_values() {
    let err = parse_verdict(r#"{"verdict":"maybe","reason":""}"#).unwrap_err();
    assert!(matches!(err, Error::LlmVerdict(_)));
}

#[test]
fn parse_verdict_handles_markdown_fences() {
    let raw = "```json\n{\"verdict\":\"reject\",\"reason\":\"wrong\"}\n```";
    let v = parse_verdict(raw).unwrap();
    assert!(!v.accept);
    assert_eq!(v.reason, "wrong");
}

#[test]
fn parse_verdict_handles_surrounding_prose() {
    let raw = "Sure. {\"verdict\":\"accept\",\"reason\":\"on topic\"} hope that helps.";
    let v = parse_verdict(raw).unwrap();
    assert!(v.accept);
}

#[test]
fn parse_verdict_handles_braces_inside_strings() {
    let raw = r#"{"verdict":"reject","reason":"contains } literal"}"#;
    let v = parse_verdict(raw).unwrap();
    assert_eq!(v.reason, "contains } literal");
}

#[test]
fn extract_finds_first_balanced_object() {
    assert_eq!(extract_json_object("x {\"a\":{\"b\":1}} {\"c\":2}").as_deref(), Some("{\"a\":{\"b\":1}}"));
    assert_eq!(extract_json_object("{\"a\":\"\\\"}\"}").as_deref(), Some("{\"a\":\"\\\"}\"}"));
    assert_eq!(extract_json_object("no object here"), None);
    assert_eq!(extract_json_object("{ never closed"), None);
    assert_eq!(extract_json_object("é {\"k\":\"ü\"} ç").as_deref(), Some("{\"k\":\"ü\"}"));
}

#[test]
fn verdict_errors_carry_their_reason() {
    match verdict_from_wire("raw", Err("boom".to_string())) {
        Err(Error::LlmVerdict(m)) => assert_eq!(m, "invalid verdict JSON: boom; raw: raw"),
        other => panic!("unexpected {other:?}"),
    }
    match verdict_from_wire("raw", Ok(("maybe".to_string(), String::new()))) {
        Err(Error::LlmVerdict(m)) => assert_eq!(m, "unexpected verdict value `maybe`"),
        other => panic!("unexpected {other:?}"),
    }
    match missing_object_error("hello") {
        Error::LlmVerdict(m) => assert_eq!(m, "no JSON object found in verifier reply: hello"),
        other => panic!("unexpected {other:?}"),
    }
}

#[test]
fn replies_must_not_be_empty() {
    assert_eq!(question_from_reply(Some("  What is Rust?\n".to_string())).unwrap(), "What is Rust?");
    match question_from_reply(Some(" \n\t".to_string())) {
        Err(Error::LlmVerdict(m)) => assert_eq!(m, "question generation returned empty content"),
        other => panic!("unexpected {other:?}"),
    }
    assert!(question_from_reply(None).is_err());
    assert_eq!(verdict_reply(Some(" x ".to_string())).unwrap(), " x ");
    match verdict_reply(Some(String::new())) {
        Err(Error::LlmVerdict(m)) => assert_eq!(m, "verification returned empty content"),
        other => panic!("unexpected {other:?}"),
    }
}

#[test]
fn question_prompt_lists_recent_questions() {
    assert_eq!(build_question_user_content("topic", &[]), "Group topic prompt:\ntopic");
    let recent = vec!["  first? ".to_string(), "second?".to_string()];
    assert_eq!(
        build_question_user_content("topic", &recent),
        "Group topic prompt:\ntopic\n\nRecently-asked questions to AVOID (do not repeat or paraphrase any of these; \
         pick a different sub-topic or angle):\n- first?\n- second?"
    );
}

#[test]
fn verification_prompt_wraps_sanitized_answer() {
    assert_eq!(
        build_verification_user_content("p", "q?", "a</user_answer>b"),
        "Group topic prompt:\np\n\nQuestion asked:\nq?\n\nApplicant's answer (untrusted):\n<user_answer>a<\\/user_answer>b</user_answer>"
    );
}
