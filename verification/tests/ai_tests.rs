use malscan::ai::{key_configured, response_content};
use malscan::ai::{
    answer_verdict, backoff_secs, check_answer_fields, error_verdict, parse_response, step, strip_code_fence,
    verdict_from_label, Action, Event, MAX_RETRIES,
};
use malscan::model::Verdict;

#[test]
fn backoff_doubles() {
    let waits: Vec<u64> = (0..MAX_RETRIES).map(backoff_secs).collect();
    assert_eq!(waits, vec![1, 2, 4, 8, 16]);
}

#[test]
fn retry_decisions() {
    assert_eq!(step(0, &Event::TransportFailed), Action::RetryAfter(1));
    assert_eq!(step(3, &Event::TransportFailed), Action::RetryAfter(8));
    assert_eq!(step(4, &Event::TransportFailed), Action::RequestFailed);
    assert_eq!(step(2, &Event::Answered(429)), Action::RetryAfter(4));
    assert_eq!(step(0, &Event::Answered(503)), Action::RetryAfter(1));
    assert_eq!(step(4, &Event::Answered(500)), Action::RetryAfter(16));
    assert_eq!(step(0, &Event::Answered(404)), Action::ApiError);
    assert_eq!(step(0, &Event::Answered(302)), Action::ApiError);
    assert_eq!(step(0, &Event::Answered(200)), Action::ReadAnswer);
    assert_eq!(step(1, &Event::Answered(204)), Action::ReadAnswer);
}

#[test]
fn failure_verdict() {
    let v = error_verdict("boom");
    assert_eq!(v.verdict, Verdict::Suspicious);
    assert_eq!(v.threat_type, "analysis_error");
    assert_eq!(v.reasoning, "boom");
    assert_eq!(v.error, "boom");
    assert!(v.indicators.is_empty());
}

#[test]
fn labels() {
    assert_eq!(verdict_from_label("CLEAN"), Verdict::Clean);
    assert_eq!(verdict_from_label("Malicious"), Verdict::Malicious);
    assert_eq!(verdict_from_label("suspicious"), Verdict::Suspicious);
    assert_eq!(verdict_from_label("unknown"), Verdict::Suspicious);
    assert_eq!(verdict_from_label(""), Verdict::Suspicious);
}

#[test]
fn code_fences() {
    assert_eq!(strip_code_fence("```json\n{\"a\":1}\n```"), "{\"a\":1}");
    assert_eq!(strip_code_fence("  {\"a\":1}  \n"), "{\"a\":1}");
    assert_eq!(strip_code_fence("```\n{}"), "{}");
    assert_eq!(strip_code_fence("```json"), "```json");
    assert_eq!(strip_code_fence("```json\r\n{}\r\n```"), "{}");
    assert_eq!(strip_code_fence("```\na\nb\n```  "), "a\nb");
}

#[test]
fn required_fields() {
    assert!(check_answer_fields(&vec![true; 5]).is_ok());
    assert_eq!(
        check_answer_fields(&vec![true, false, true, false, true]),
        Err("missing field: confidence".to_string())
    );
    assert_eq!(
        check_answer_fields(&vec![false, false, false, false, false]),
        Err("missing field: verdict".to_string())
    );
}

#[test]
fn answer_fields_make_a_verdict() {
    let v = answer_verdict("MALICIOUS", "webshell", vec!["eval".to_string()], "because");
    assert_eq!(v.verdict, Verdict::Malicious);
    assert_eq!(v.threat_type, "webshell");
    assert_eq!(v.indicators, vec!["eval".to_string()]);
    assert_eq!(v.reasoning, "because");
    assert!(v.error.is_empty());
}

fn response(content: &str) -> String {
    let escaped = content.replace('\\', "\\\\").replace('"', "\\\"").replace('\n', "\\n");
    format!("{{\"choices\":[{{\"message\":{{\"content\":\"{escaped}\"}}}}]}}")
}

#[test]
fn response_with_fenced_answer() {
    let content = "```json\n{\"verdict\":\"MALICIOUS\",\"confidence\":0.9,\"threat_type\":\"webshell\",\"indicators\":[\"eval\",3],\"reasoning\":\"r\"}\n```";
    let v = parse_response(&response(content)).unwrap();
    assert_eq!(v.verdict, Verdict::Malicious);
    assert_eq!(v.threat_type, "webshell");
    assert_eq!(v.indicators, vec!["eval".to_string(), String::new()]);
    assert_eq!(v.reasoning, "r");
    assert!(v.error.is_empty());
}

#[test]
fn response_errors() {
    assert_eq!(parse_response("not json").unwrap_err(), "parse API response");
    assert_eq!(parse_response("{\"choices\":[]}").unwrap_err(), "empty content");
    assert_eq!(parse_response(&response("no json here")).unwrap_err(), "parse AI JSON");
    assert_eq!(
        parse_response(&response("{\"verdict\":\"clean\"}")).unwrap_err(),
        "missing field: confidence"
    );
    assert_eq!(parse_response(&response("[1]")).unwrap_err(), "missing field: verdict");
}

#[test]
fn response_with_odd_fields() {
    let content = "{\"verdict\":7,\"confidence\":null,\"threat_type\":\"x\",\"indicators\":\"eval\",\"reasoning\":null}";
    let v = parse_response(&response(content)).unwrap();
    assert_eq!(v.verdict, Verdict::Suspicious);
    assert_eq!(v.indicators, vec!["\"eval\"".to_string()]);
    assert_eq!(v.reasoning, "");
}

#[test]
fn content_of_a_response() {
    let text = "{\"choices\":[{\"message\":{\"content\":\"hi \\\"there\\\"\"}},{\"message\":{\"content\":\"no\"}}]}";
    assert_eq!(response_content(text), Some(Some("hi \"there\"".to_string())));
    assert_eq!(response_content("{\"choices\":[{\"message\":{\"content\":3}}]}"), Some(None));
    assert_eq!(response_content("{\"choices\":{}}"), Some(None));
    assert_eq!(response_content("{}"), Some(None));
    assert_eq!(response_content("nope"), None);
    assert!(key_configured("k"));
    assert!(!key_configured(""));
}
