use completion_client::classify_response;
use completion_client::parse_credentials;
use completion_client::CompletionClient;
use completion_client::CompletionError;
use completion_client::Credentials;
use completion_client::GenerationParameters;
use completion_client::Role;
use completion_client::Transcript;
use completion_client::Transport;

/// Answers every request from a script and records what was sent.
struct MockTransport {
    status: u16,
    body: String,
    seen_url: Option<String>,
    seen_auth: Option<String>,
    seen_body: Option<String>,
}

impl MockTransport {
    fn new(status: u16, body: &str) -> MockTransport {
        MockTransport {
            status,
            body: body.to_string(),
            seen_url: None,
            seen_auth: None,
            seen_body: None,
        }
    }
}

impl Transport for MockTransport {
    fn send(&mut self, url: &str, auth: &str, body: &str) -> Result<(u16, String), String> {
        self.seen_url = Some(url.to_string());
        self.seen_auth = Some(auth.to_string());
        self.seen_body = Some(body.to_string());
        Ok((self.status, self.body.clone()))
    }
}

/// A transport that cannot deliver anything.
struct DownTransport;

impl Transport for DownTransport {
    fn send(&mut self, _url: &str, _auth: &str, _body: &str) -> Result<(u16, String), String> {
        Err("connection refused".to_string())
    }
}

fn scenario_transcript() -> Transcript {
    let mut t = Transcript::new();
    t.append(Role::System, "You help.".to_string());
    t.append(Role::User, "Hi".to_string());
    t
}

fn creds() -> Credentials {
    Credentials { key: "test-key".to_string() }
}

const OK_BODY: &str = "{\"id\":\"chatcmpl-1\",\"object\":\"chat.completion\",\"created\":1700000000,\
    \"choices\":[{\"index\":0,\"logprobs\":null,\"finish_reason\":\"stop\",\
    \"message\":{\"role\":\"assistant\",\"content\":\"Hello!\"}}],\
    \"usage\":{\"prompt_tokens\":10,\"completion_tokens\":5,\"total_tokens\":15}}";

#[test]
fn successful_completion_round() {
    let mut client = CompletionClient::new(MockTransport::new(200, OK_BODY));
    let t = scenario_transcript();
    let p = GenerationParameters::new();
    let r = client.complete(&t, &p, &creds()).expect("scenario returns a response");
    assert_eq!(r.id, "chatcmpl-1");
    assert_eq!(r.created, 1700000000);
    assert_eq!(r.choices.len(), 1);
    assert_eq!(r.choices[0].index, 0);
    assert_eq!(r.choices[0].finish_reason, "stop");
    assert_eq!(r.choices[0].message.role, Role::Assistant);
    assert_eq!(r.choices[0].message.content, "Hello!");
    assert!(r.choices[0].log_probabilities.is_none());
    assert_eq!(r.usage.prompt_tokens, 10);
    assert_eq!(r.usage.completion_tokens, 5);
    assert_eq!(r.usage.total_tokens, 15);
}

#[test]
fn client_sends_authenticated_envelope_once() {
    let mut client = CompletionClient::new(MockTransport::new(200, OK_BODY));
    let t = scenario_transcript();
    let p = GenerationParameters::new();
    client.complete(&t, &p, &creds()).expect("scenario returns a response");
    assert_eq!(
        client.transport.seen_url.as_deref(),
        Some("https://api.openai.com/v1/chat/completions")
    );
    assert_eq!(client.transport.seen_auth.as_deref(), Some("Bearer test-key"));
    let sent = client.transport.seen_body.unwrap();
    assert_eq!(sent, completion_client::build_request_body(&p, &t));
    assert!(sent.contains("\"messages\":[{\"role\":\"system\",\"content\":\"You help.\"},{\"role\":\"user\",\"content\":\"Hi\"}]"));
}

#[test]
fn non_200_is_an_http_status_error() {
    let mut client = CompletionClient::new(MockTransport::new(401, "{\"error\":\"invalid key\"}"));
    let t = scenario_transcript();
    let p = GenerationParameters::new();
    let e = client.complete(&t, &p, &creds()).unwrap_err();
    assert_eq!(
        e,
        CompletionError::HttpStatusError(401, "{\"error\":\"invalid key\"}".to_string())
    );
}

#[test]
fn non_200_body_is_never_deserialized() {
    // even a perfectly well-formed response body is kept raw when the
    // status is not 200
    let mut client = CompletionClient::new(MockTransport::new(500, OK_BODY));
    let t = scenario_transcript();
    let p = GenerationParameters::new();
    let e = client.complete(&t, &p, &creds()).unwrap_err();
    assert_eq!(e, CompletionError::HttpStatusError(500, OK_BODY.to_string()));
}

#[test]
fn body_missing_choices_is_a_deserialization_error() {
    let body = "{\"id\":\"chatcmpl-1\",\"object\":\"chat.completion\",\"created\":1,\
        \"usage\":{\"prompt_tokens\":1,\"completion_tokens\":1,\"total_tokens\":2}}";
    let mut client = CompletionClient::new(MockTransport::new(200, body));
    let t = scenario_transcript();
    let p = GenerationParameters::new();
    let e = client.complete(&t, &p, &creds()).unwrap_err();
    assert_eq!(e, CompletionError::DeserializationError);
}

#[test]
fn body_missing_total_tokens_is_a_deserialization_error() {
    let body = "{\"id\":\"chatcmpl-1\",\"created\":1,\
        \"choices\":[{\"index\":0,\"logprobs\":null,\"finish_reason\":\"stop\",\
        \"message\":{\"role\":\"assistant\",\"content\":\"x\"}}],\
        \"usage\":{\"prompt_tokens\":1,\"completion_tokens\":1}}";
    let e = classify_response(200, body.to_string()).unwrap_err();
    assert_eq!(e, CompletionError::DeserializationError);
}

#[test]
fn unreadable_body_is_a_deserialization_error() {
    let e = classify_response(200, "not json at all".to_string()).unwrap_err();
    assert_eq!(e, CompletionError::DeserializationError);
}

#[test]
fn transport_failure_is_surfaced_raw() {
    let mut client = CompletionClient::new(DownTransport);
    let t = scenario_transcript();
    let p = GenerationParameters::new();
    let e = client.complete(&t, &p, &creds()).unwrap_err();
    assert_eq!(e, CompletionError::TransportError("connection refused".to_string()));
}

#[test]
fn response_tolerates_whitespace_and_unknown_fields() {
    let good = "{\n  \"id\": \"x\",\n  \"object\": \"chat.completion\",\n  \"model\": \"gpt-3.5-turbo\",\n  \"created\": 99,\n  \"choices\": [ {\n    \"index\": 0,\n    \"finish_reason\": \"length\",\n    \"message\": { \"role\": \"user\", \"content\": \"hi\" }\n  } ],\n  \"usage\": { \"prompt_tokens\": 1, \"completion_tokens\": 2, \"total_tokens\": 3 }\n}";
    let r = classify_response(200, good.to_string()).expect("whitespace and extras are fine");
    assert_eq!(r.id, "x");
    assert_eq!(r.created, 99);
    assert_eq!(r.choices[0].finish_reason, "length");
    assert_eq!(r.choices[0].message.role, Role::User);
    assert_eq!(r.usage.total_tokens, 3);
}

#[test]
fn logprobs_are_kept_verbatim() {
    let body = "{\"id\":\"x\",\"created\":1,\
        \"choices\":[{\"index\":0,\"logprobs\":{\"He\":-0.25,\"llo\":-1.5},\
        \"finish_reason\":\"stop\",\"message\":{\"role\":\"assistant\",\"content\":\"y\"}}],\
        \"usage\":{\"prompt_tokens\":1,\"completion_tokens\":1,\"total_tokens\":2}}";
    let r = classify_response(200, body.to_string()).expect("parses");
    let lp = r.choices[0].log_probabilities.as_ref().unwrap();
    assert_eq!(lp.len(), 2);
    assert_eq!(lp[0], ("He".to_string(), "-0.25".to_string()));
    assert_eq!(lp[1], ("llo".to_string(), "-1.5".to_string()));
}

#[test]
fn created_may_exceed_thirty_two_bits() {
    let body = "{\"id\":\"x\",\"created\":8000000000,\
        \"choices\":[{\"index\":0,\"logprobs\":null,\"finish_reason\":\"stop\",\
        \"message\":{\"role\":\"assistant\",\"content\":\"y\"}}],\
        \"usage\":{\"prompt_tokens\":1,\"completion_tokens\":1,\"total_tokens\":2}}";
    let r = classify_response(200, body.to_string()).expect("parses");
    assert_eq!(r.created, 8000000000u64);
}

#[test]
fn unknown_role_is_a_deserialization_error() {
    let body = "{\"id\":\"x\",\"created\":1,\
        \"choices\":[{\"index\":0,\"logprobs\":null,\"finish_reason\":\"stop\",\
        \"message\":{\"role\":\"oracle\",\"content\":\"y\"}}],\
        \"usage\":{\"prompt_tokens\":1,\"completion_tokens\":1,\"total_tokens\":2}}";
    let e = classify_response(200, body.to_string()).unwrap_err();
    assert_eq!(e, CompletionError::DeserializationError);
}

#[test]
fn unicode_escapes_are_read() {
    let body = "{\"id\":\"x\",\"created\":1,\
        \"choices\":[{\"index\":0,\"logprobs\":null,\"finish_reason\":\"stop\",\
        \"message\":{\"role\":\"assistant\",\"content\":\"\\u0041\\u00e9\\u20ac!\"}}],\
        \"usage\":{\"prompt_tokens\":1,\"completion_tokens\":1,\"total_tokens\":2}}";
    let r = classify_response(200, body.to_string()).expect("parses");
    assert_eq!(r.choices[0].message.content, "A\u{e9}\u{20ac}!");
}

#[test]
fn lone_surrogate_escape_is_rejected() {
    let body = "{\"id\":\"x\",\"created\":1,\
        \"choices\":[{\"index\":0,\"logprobs\":null,\"finish_reason\":\"stop\",\
        \"message\":{\"role\":\"assistant\",\"content\":\"\\ud800\"}}],\
        \"usage\":{\"prompt_tokens\":1,\"completion_tokens\":1,\"total_tokens\":2}}";
    let e = classify_response(200, body.to_string()).unwrap_err();
    assert_eq!(e, CompletionError::DeserializationError);
}

#[test]
fn raw_control_character_in_string_is_rejected() {
    let body = "{\"id\":\"x\u{8}\",\"created\":1,\
        \"choices\":[],\
        \"usage\":{\"prompt_tokens\":1,\"completion_tokens\":1,\"total_tokens\":2}}";
    let e = classify_response(200, body.to_string()).unwrap_err();
    assert_eq!(e, CompletionError::DeserializationError);
}

#[test]
fn malformed_number_literals_are_rejected() {
    for bad in ["-", "01", ".5", "1e+", "1.", "+1", "e3"] {
        let body = format!(
            "{{\"id\":\"x\",\"created\":{bad},\
             \"choices\":[],\
             \"usage\":{{\"prompt_tokens\":1,\"completion_tokens\":1,\"total_tokens\":2}}}}"
        );
        let e = classify_response(200, body).unwrap_err();
        assert_eq!(e, CompletionError::DeserializationError, "literal {bad} was accepted");
    }
}

#[test]
fn credentials_parse_from_document() {
    let c = parse_credentials("{\n  \"openai_key\": \"test-key-123\"\n}").expect("parses");
    assert_eq!(c.key, "test-key-123");
    assert!(parse_credentials("{\"other\":1}").is_none());
    assert!(parse_credentials("[]").is_none());
    assert!(parse_credentials("nonsense").is_none());
}
