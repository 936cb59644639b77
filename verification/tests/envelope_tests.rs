use completion_client::build_request_body;
use completion_client::parse_request;
use completion_client::GenerationParameters;
use completion_client::Role;
use completion_client::Transcript;

fn two_turn_transcript() -> Transcript {
    let mut t = Transcript::new();
    t.append(Role::System, "You help.".to_string());
    t.append(Role::User, "Hi".to_string());
    t
}

#[test]
fn default_parameters_agree() {
    let a = GenerationParameters::new();
    let b = GenerationParameters::new();
    assert_eq!(a, b);
    assert_eq!(a.model, "gpt-3.5-turbo");
    assert_eq!(a.temperature_milli, 1000);
    assert_eq!(a.top_p_milli, 1000);
    assert_eq!(a.candidate_count, 1);
    assert!(!a.stream);
    assert!(a.stop_sequences.is_none());
    assert_eq!(a.max_output_tokens, 512);
    assert_eq!(a.presence_penalty_milli, 0);
    assert_eq!(a.frequency_penalty_milli, 0);
    assert!(a.logit_bias.is_empty());
}

#[test]
fn append_keeps_call_order() {
    let mut t = Transcript::new();
    t.append(Role::System, "a".to_string());
    t.append(Role::User, "b".to_string());
    t.append(Role::Assistant, "c".to_string());
    t.append(Role::User, "d".to_string());
    assert_eq!(t.len(), 4);
    let contents: Vec<&str> = t.turns.iter().map(|x| x.content.as_str()).collect();
    assert_eq!(contents, vec!["a", "b", "c", "d"]);
    assert_eq!(t.turns[0].role, Role::System);
    assert_eq!(t.turns[2].role, Role::Assistant);
}

#[test]
fn envelope_text_is_exact() {
    let p = GenerationParameters::new();
    let t = two_turn_transcript();
    let body = build_request_body(&p, &t);
    assert_eq!(
        body,
        "{\"model\":\"gpt-3.5-turbo\",\"messages\":[\
         {\"role\":\"system\",\"content\":\"You help.\"},\
         {\"role\":\"user\",\"content\":\"Hi\"}],\
         \"temperature\":1.000,\"top_p\":1.000,\"n\":1,\"stream\":false,\
         \"stop\":null,\"max_tokens\":512,\"presence_penalty\":0.000,\
         \"frequency_penalty\":0.000,\"logit_bias\":{}}"
    );
}

#[test]
fn envelope_keeps_turn_order() {
    let p = GenerationParameters::new();
    let mut t = Transcript::new();
    t.append(Role::User, "first".to_string());
    t.append(Role::User, "second".to_string());
    t.append(Role::User, "third".to_string());
    let body = build_request_body(&p, &t);
    let i1 = body.find("first").unwrap();
    let i2 = body.find("second").unwrap();
    let i3 = body.find("third").unwrap();
    assert!(i1 < i2 && i2 < i3);
}

#[test]
fn round_trip_default_envelope() {
    let p = GenerationParameters::new();
    let t = two_turn_transcript();
    let body = build_request_body(&p, &t);
    let (p2, t2) = parse_request(&body).expect("canonical envelope parses back");
    assert_eq!(p, p2);
    assert_eq!(t.turns, t2.turns);
}

#[test]
fn round_trip_full_envelope() {
    let mut p = GenerationParameters::new();
    p.model = "gpt-4".to_string();
    p.temperature_milli = 200;
    p.top_p_milli = 950;
    p.candidate_count = 3;
    p.stop_sequences = Some(vec!["\n\n".to_string(), "END".to_string()]);
    p.max_output_tokens = 64;
    p.presence_penalty_milli = -1500;
    p.frequency_penalty_milli = 2000;
    p.logit_bias = vec![("50256".to_string(), -100000), ("11".to_string(), 1500)];
    let mut t = Transcript::new();
    t.append(Role::System, "Quote: \"hi\\there\"\nNew\tline\r!".to_string());
    t.append(Role::Assistant, "Okay, I'm ready!".to_string());
    let body = build_request_body(&p, &t);
    let (p2, t2) = parse_request(&body).expect("canonical envelope parses back");
    assert_eq!(p, p2);
    assert_eq!(t.turns, t2.turns);
}

#[test]
fn fixed_point_renders_with_three_fraction_digits() {
    let mut p = GenerationParameters::new();
    p.temperature_milli = 200;
    p.presence_penalty_milli = -1;
    let t = Transcript::new();
    let body = build_request_body(&p, &t);
    assert!(body.contains("\"temperature\":0.200"));
    assert!(body.contains("\"presence_penalty\":-0.001"));
    assert!(body.contains("\"messages\":[]"));
}

#[test]
fn control_characters_are_escaped_and_round_trip() {
    let p = GenerationParameters::new();
    let mut t = Transcript::new();
    t.append(Role::User, "a\u{8}b\u{1f}c".to_string());
    let body = build_request_body(&p, &t);
    assert!(body.contains("a\\u0008b\\u001fc"));
    let (_, t2) = parse_request(&body).expect("canonical envelope parses back");
    assert_eq!(t.turns, t2.turns);
}

#[test]
fn duplicate_bias_keys_are_rejected() {
    let mut p = GenerationParameters::new();
    p.logit_bias = vec![("11".to_string(), 100), ("11".to_string(), 200)];
    assert!(!completion_client::params_wf_check(&p));
    p.logit_bias = vec![("11".to_string(), 100), ("12".to_string(), 200)];
    assert!(completion_client::params_wf_check(&p));
}

#[test]
fn parse_request_rejects_non_canonical_text() {
    let p = GenerationParameters::new();
    let t = two_turn_transcript();
    let mut body = build_request_body(&p, &t);
    body.push(' ');
    // still valid JSON, but not the canonical envelope text
    assert!(parse_request(&body).is_none());
    assert!(parse_request("{\"model\":\"m\"}").is_none());
    assert!(parse_request("not json").is_none());
}
