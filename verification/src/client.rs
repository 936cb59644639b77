use vstd::prelude::*;
use vstd::string::StrSliceExecFns;
use vstd::string::StringExecFns;

use crate::envelope::build_request_body;
use crate::json::is_document;
use crate::json::olookup;
use crate::json::parse_document;
use crate::json::Json;
use crate::json::JsonList;
use crate::json::JsonObj;
use crate::model::Choice;
use crate::model::CompletionError;
use crate::model::CompletionResponse;
use crate::model::Credentials;
use crate::model::GenerationParameters;
use crate::model::Role;
use crate::model::Transcript;
use crate::model::Turn;
use crate::model::UsageStats;

verus! {

/// The provider's chat-completions endpoint.
pub const CHAT_COMPLETIONS_ENDPOINT: &'static str = "https://api.openai.com/v1/chat/completions";

pub open spec fn spec_digit_val(c: char) -> int {
    (c as u32) - ('0' as u32)
}

/// A nonempty run of decimal digits.
pub open spec fn is_digit_seq(s: Seq<char>) -> bool {
    s.len() > 0 && forall|k: int| 0 <= k < s.len() ==> crate::json::is_digit(#[trigger] s[k])
}

/// The value of a run of decimal digits.
pub open spec fn val_of(s: Seq<char>) -> int
    decreases s.len(),
{
    if s.len() == 0 {
        0
    } else {
        val_of(s.drop_last()) * 10 + spec_digit_val(s.last())
    }
}

/// `o` binds `key` to the integer numeral of `v`.
pub open spec fn num_field_is(o: JsonObj, key: Seq<char>, v: int) -> bool {
    olookup(o, key) matches Some(Json::Num(raw)) && is_digit_seq(raw@) && val_of(raw@) == v
}

/// `o` binds `key` to a string reading `v`.
pub open spec fn str_field_is(o: JsonObj, key: Seq<char>, v: Seq<char>) -> bool {
    olookup(o, key) matches Some(Json::Str(s)) && s@ == v
}

/// `j` is a message object for the turn `t`.
pub open spec fn is_turn_of(j: Json, t: Turn) -> bool {
    &&& j matches Json::Obj(o)
    &&& olookup(o, "role"@) matches Some(Json::Str(s)) && Role::spec_of_name(s@) == Some(t.role)
    &&& str_field_is(o, "content"@, t.content@)
}

/// `o`'s members are exactly the token-to-number entries of `m`, each
/// number kept as its raw text.
pub open spec fn lp_entries(o: JsonObj, m: Seq<(String, String)>) -> bool
    decreases o,
{
    match o {
        JsonObj::Nil => m.len() == 0,
        JsonObj::Cons(key, val, rest) => {
            &&& m.len() >= 1
            &&& m[0].0@ == key@
            &&& *val matches Json::Num(raw) && raw@ == m[0].1@
            &&& lp_entries(*rest, m.skip(1))
        },
    }
}

/// `j` is a choice object for the choice `c`.
pub open spec fn is_choice_of(j: Json, c: Choice) -> bool {
    &&& j matches Json::Obj(o)
    &&& num_field_is(o, "index"@, c.index as int)
    &&& str_field_is(o, "finish_reason"@, c.finish_reason@)
    &&& olookup(o, "message"@) matches Some(mj) && is_turn_of(mj, c.message)
    &&& match olookup(o, "logprobs"@) {
        None => c.log_probabilities is None,
        Some(Json::Null) => c.log_probabilities is None,
        Some(Json::Obj(lo)) => c.log_probabilities matches Some(m) && lp_entries(lo, m@),
        Some(_) => false,
    }
}

/// The items of `l` are choice objects for the choices of `cs`, in order.
pub open spec fn choices_rel(l: JsonList, cs: Seq<Choice>) -> bool
    decreases l,
{
    match l {
        JsonList::Nil => cs.len() == 0,
        JsonList::Cons(hd, tl) => cs.len() >= 1 && is_choice_of(*hd, cs[0]) && choices_rel(
            *tl,
            cs.skip(1),
        ),
    }
}

/// `j` is a usage object for `u`. All three counters must be present:
/// nothing is ever zero-filled.
pub open spec fn is_usage_of(j: Json, u: UsageStats) -> bool {
    &&& j matches Json::Obj(uo)
    &&& num_field_is(uo, "prompt_tokens"@, u.prompt_tokens as int)
    &&& num_field_is(uo, "completion_tokens"@, u.completion_tokens as int)
    &&& num_field_is(uo, "total_tokens"@, u.total_tokens as int)
}

/// `j` is a whole response document body for the response `r`.
pub open spec fn is_response_of(j: Json, r: CompletionResponse) -> bool {
    &&& j matches Json::Obj(o)
    &&& str_field_is(o, "id"@, r.id@)
    &&& num_field_is(o, "created"@, r.created as int)
    &&& olookup(o, "choices"@) matches Some(Json::Arr(l)) && choices_rel(l, r.choices@)
    &&& olookup(o, "usage"@) matches Some(uj) && is_usage_of(uj, r.usage)
}

/// The value of a run of digits is never negative.
proof fn lemma_val_of_nonneg(s: Seq<char>)
    requires
        forall|k: int| 0 <= k < s.len() ==> crate::json::is_digit(#[trigger] s[k]),
    ensures
        val_of(s) >= 0,
    decreases s.len(),
{
    if s.len() > 0 {
        lemma_val_of_nonneg(s.drop_last());
    }
}

/// A digit run is worth at least any of its prefixes.
proof fn lemma_val_of_prefix(s: Seq<char>, i: int)
    requires
        forall|k: int| 0 <= k < s.len() ==> crate::json::is_digit(#[trigger] s[k]),
        0 <= i <= s.len(),
    ensures
        val_of(s.subrange(0, i)) <= val_of(s),
    decreases s.len() - i,
{
    if i == s.len() {
        assert(s.subrange(0, i) =~= s);
    } else {
        lemma_val_of_prefix(s, i + 1);
        let p = s.subrange(0, i + 1);
        assert(p.drop_last() =~= s.subrange(0, i));
        assert(forall|k: int| 0 <= k < p.len() ==> crate::json::is_digit(#[trigger] p[k]));
        lemma_val_of_nonneg(p.drop_last());
        assert(val_of(p) == val_of(p.drop_last()) * 10 + spec_digit_val(p.last()));
        assert(val_of(p.drop_last()) * 10 >= val_of(p.drop_last()));
        assert(spec_digit_val(p.last()) >= 0);
    }
}

/// Reads a run of digits as a `u64`.
fn parse_u64_val(raw: &str) -> (r: Option<u64>)
    ensures
        r matches Some(v) ==> is_digit_seq(raw@) && val_of(raw@) == v,
        r is None ==> !is_digit_seq(raw@) || val_of(raw@) > u64::MAX,
{
    let n = raw.unicode_len();
    if n == 0 {
        return None;
    }
    let mut i: usize = 0;
    let mut acc: u64 = 0;
    proof {
        assert(raw@.subrange(0, 0) =~= Seq::<char>::empty());
    }
    while i < n
        invariant
            i <= n,
            n == raw@.len(),
            acc == val_of(raw@.subrange(0, i as int)),
            forall|k: int| 0 <= k < i ==> crate::json::is_digit(#[trigger] raw@[k]),
        decreases n - i,
    {
        let c = raw.get_char(i);
        if !('0' <= c && c <= '9') {
            proof {
                assert(!crate::json::is_digit(raw@[i as int]));
            }
            return None;
        }
        let d: u64 = ((c as u32) - ('0' as u32)) as u64;
        proof {
            assert(raw@.subrange(0, i + 1).drop_last() =~= raw@.subrange(0, i as int));
            assert(raw@.subrange(0, i + 1).last() == c);
            assert(val_of(raw@.subrange(0, i + 1)) == acc * 10 + d);
        }
        acc = match acc.checked_mul(10) {
            None => {
                proof {
                    if is_digit_seq(raw@) {
                        lemma_val_of_prefix(raw@, i + 1);
                    }
                }
                return None;
            },
            Some(x) => match x.checked_add(d) {
                None => {
                    proof {
                        if is_digit_seq(raw@) {
                            lemma_val_of_prefix(raw@, i + 1);
                        }
                    }
                    return None;
                },
                Some(y) => y,
            },
        };
        i = i + 1;
    }
    proof {
        assert(raw@.subrange(0, n as int) =~= raw@);
    }
    Some(acc)
}

/// Reads a run of digits as a `u32`.
fn parse_u32_val(raw: &str) -> (r: Option<u32>)
    ensures
        r matches Some(v) ==> is_digit_seq(raw@) && val_of(raw@) == v,
        r is None ==> !is_digit_seq(raw@) || val_of(raw@) > u32::MAX,
{
    match parse_u64_val(raw) {
        None => None,
        Some(v) => if v <= u32::MAX as u64 {
            Some(v as u32)
        } else {
            None
        },
    }
}

/// The role a wire name denotes.
pub(crate) fn role_of_wire(s: &String) -> (r: Option<Role>)
    ensures
        r == Role::spec_of_name(s@),
{
    let sys: String = "system".to_owned();
    let usr: String = "user".to_owned();
    let asst: String = "assistant".to_owned();
    if *s == sys {
        Some(Role::System)
    } else if *s == usr {
        Some(Role::User)
    } else if *s == asst {
        Some(Role::Assistant)
    } else {
        None
    }
}

pub(crate) fn decode_turn(j: &Json) -> (r: Option<Turn>)
    ensures
        r matches Some(t) ==> is_turn_of(*j, t),
        r is None ==> forall|t: Turn| !is_turn_of(*j, t),
{
    let o = match j {
        Json::Obj(o) => o,
        _ => {
            return None;
        },
    };
    let role = match crate::json::get_field(o, "role") {
        Some(Json::Str(s)) => match role_of_wire(s) {
            Some(role) => role,
            None => {
                return None;
            },
        },
        _ => {
            return None;
        },
    };
    let content = match crate::json::get_field(o, "content") {
        Some(Json::Str(s)) => s.clone(),
        _ => {
            return None;
        },
    };
    Some(Turn { role, content })
}

fn decode_lp(o: &JsonObj) -> (r: Option<Vec<(String, String)>>)
    ensures
        r matches Some(m) ==> lp_entries(*o, m@),
        r is None ==> forall|m: Seq<(String, String)>| !lp_entries(*o, m),
    decreases *o,
{
    match o {
        JsonObj::Nil => Some(Vec::new()),
        JsonObj::Cons(key, val, rest) => {
            let raw = match &**val {
                Json::Num(raw) => raw.clone(),
                _ => {
                    return None;
                },
            };
            match decode_lp(rest) {
                None => {
                    proof {
                        assert forall|m: Seq<(String, String)>| !lp_entries(*o, m) by {
                            assert(!lp_entries(**rest, m.skip(1)));
                        }
                    }
                    None
                },
                Some(mut m) => {
                    let ghost m0 = m@;
                    m.insert(0, (key.clone(), raw));
                    proof {
                        assert(m@.skip(1) =~= m0);
                    }
                    Some(m)
                },
            }
        },
    }
}

fn decode_choice(j: &Json) -> (r: Option<Choice>)
    ensures
        r matches Some(c) ==> is_choice_of(*j, c),
        r is None ==> forall|c: Choice| !is_choice_of(*j, c),
{
    let o = match j {
        Json::Obj(o) => o,
        _ => {
            return None;
        },
    };
    let index = match crate::json::get_field(o, "index") {
        Some(Json::Num(raw)) => match parse_u32_val(raw.as_str()) {
            Some(v) => v,
            None => {
                return None;
            },
        },
        _ => {
            return None;
        },
    };
    let finish_reason = match crate::json::get_field(o, "finish_reason") {
        Some(Json::Str(s)) => s.clone(),
        _ => {
            return None;
        },
    };
    let message = match crate::json::get_field(o, "message") {
        Some(mj) => match decode_turn(mj) {
            Some(t) => t,
            None => {
                return None;
            },
        },
        None => {
            return None;
        },
    };
    let log_probabilities = match crate::json::get_field(o, "logprobs") {
        None => None,
        Some(Json::Null) => None,
        Some(Json::Obj(lo)) => match decode_lp(lo) {
            Some(m) => Some(m),
            None => {
                return None;
            },
        },
        Some(_) => {
            return None;
        },
    };
    Some(Choice { index, finish_reason, message, log_probabilities })
}

fn decode_choices(l: &JsonList) -> (r: Option<Vec<Choice>>)
    ensures
        r matches Some(cs) ==> choices_rel(*l, cs@),
        r is None ==> forall|cs: Seq<Choice>| !choices_rel(*l, cs),
    decreases *l,
{
    match l {
        JsonList::Nil => Some(Vec::new()),
        JsonList::Cons(hd, tl) => {
            let c = match decode_choice(hd) {
                Some(c) => c,
                None => {
                    return None;
                },
            };
            match decode_choices(tl) {
                None => {
                    proof {
                        assert forall|cs: Seq<Choice>| !choices_rel(*l, cs) by {
                            assert(!choices_rel(**tl, cs.skip(1)));
                        }
                    }
                    None
                },
                Some(mut cs) => {
                    let ghost cs0 = cs@;
                    cs.insert(0, c);
                    proof {
                        assert(cs@.skip(1) =~= cs0);
                    }
                    Some(cs)
                },
            }
        },
    }
}

/// Reads the counter `o` binds to `key`, exhaustively: a `None` means no
/// `u32` at all is bound there.
fn counter_field(o: &JsonObj, key: &str) -> (r: Option<u32>)
    ensures
        r matches Some(v) ==> num_field_is(*o, key@, v as int),
        r is None ==> forall|v: u32| !#[trigger] num_field_is(*o, key@, v as int),
{
    match crate::json::get_field(o, key) {
        Some(Json::Num(raw)) => match parse_u32_val(raw.as_str()) {
            Some(v) => Some(v),
            None => None,
        },
        _ => None,
    }
}

fn decode_usage(j: &Json) -> (r: Option<UsageStats>)
    ensures
        r matches Some(u) ==> is_usage_of(*j, u),
        r is None ==> forall|u: UsageStats| !is_usage_of(*j, u),
{
    let uo = match j {
        Json::Obj(uo) => uo,
        _ => {
            return None;
        },
    };
    let prompt_tokens = match counter_field(uo, "prompt_tokens") {
        Some(v) => v,
        None => {
            return None;
        },
    };
    let completion_tokens = match counter_field(uo, "completion_tokens") {
        Some(v) => v,
        None => {
            return None;
        },
    };
    let total_tokens = match counter_field(uo, "total_tokens") {
        Some(v) => v,
        None => {
            return None;
        },
    };
    Some(UsageStats { prompt_tokens, completion_tokens, total_tokens })
}

/// Reads a response document into a response value, exhaustively: a `None`
/// means the document is a response document for no value at all.
pub fn decode_response(j: &Json) -> (r: Option<CompletionResponse>)
    ensures
        r matches Some(resp) ==> is_response_of(*j, resp),
        r is None ==> forall|resp: CompletionResponse| !is_response_of(*j, resp),
{
    let o = match j {
        Json::Obj(o) => o,
        _ => {
            return None;
        },
    };
    let id = match crate::json::get_field(o, "id") {
        Some(Json::Str(s)) => s.clone(),
        _ => {
            return None;
        },
    };
    let created = match crate::json::get_field(o, "created") {
        Some(Json::Num(raw)) => match parse_u64_val(raw.as_str()) {
            Some(v) => v,
            None => {
                return None;
            },
        },
        _ => {
            return None;
        },
    };
    let choices = match crate::json::get_field(o, "choices") {
        Some(Json::Arr(l)) => match decode_choices(l) {
            Some(cs) => cs,
            None => {
                return None;
            },
        },
        _ => {
            return None;
        },
    };
    let usage = match crate::json::get_field(o, "usage") {
        Some(uj) => match decode_usage(uj) {
            Some(u) => u,
            None => {
                return None;
            },
        },
        None => {
            return None;
        },
    };
    Some(CompletionResponse { id, created, choices, usage })
}

/// Sorts one transport outcome into the error taxonomy: any status other
/// than 200 is an `HttpStatusError` carrying that status and the raw body,
/// before and instead of any look at the body's contents; a 200 body
/// either reads as a response document or is a `DeserializationError`.
pub fn classify_response(status: u16, body: String) -> (r: Result<
    CompletionResponse,
    CompletionError,
>)
    ensures
        status != 200 ==> (r matches Err(e) && (e matches CompletionError::HttpStatusError(st, b)
            && st == status && b@ == body@)),
        status == 200 ==> match r {
            Ok(resp) => exists|j: Json|
                #[trigger] is_document(body@, j) && is_response_of(j, resp),
            Err(e) => e == CompletionError::DeserializationError,
        },
{
    if status != 200 {
        return Err(CompletionError::HttpStatusError(status, body));
    }
    let j = match parse_document(body.as_str()) {
        Some(j) => j,
        None => {
            return Err(CompletionError::DeserializationError);
        },
    };
    match decode_response(&j) {
        Some(resp) => {
            proof {
                assert(is_document(body@, j) && is_response_of(j, resp));
            }
            Ok(resp)
        },
        None => Err(CompletionError::DeserializationError),
    }
}

/// How a request reaches the provider. The real transport does one HTTPS
/// POST; a test double answers from a script. `send` returns the status
/// and raw body of the response, or a transport-level failure.
pub trait Transport {
    fn send(&mut self, url: &str, auth: &str, body: &str) -> (r: Result<(u16, String), String>);
}

/// The `Authorization` header value for `creds`.
pub fn build_auth(creds: &Credentials) -> (r: String)
    ensures
        r@ == "Bearer "@ + creds.key@,
{
    let prefix: String = "Bearer ".to_owned();
    prefix.concat(creds.key.as_str())
}

/// A client owning a reusable transport handle. Each `complete` call runs
/// exactly one request/response cycle; no state outlives a call.
pub struct CompletionClient<T: Transport> {
    pub transport: T,
}

impl<T: Transport> CompletionClient<T> {
    pub fn new(transport: T) -> (r: CompletionClient<T>)
        ensures
            r.transport == transport,
    {
        CompletionClient { transport }
    }

    /// One completion call: serializes the envelope for `params` and
    /// `transcript`, sends it once with bearer authentication, and sorts
    /// the outcome. The transcript is only read; it is never changed. An
    /// `Ok` is a full decode of a response document: no field of it is
    /// ever invented.
    pub fn complete(
        &mut self,
        transcript: &Transcript,
        params: &GenerationParameters,
        creds: &Credentials,
    ) -> (r: Result<CompletionResponse, CompletionError>)
        requires
            params.wf(),
        ensures
            r matches Ok(resp) ==> exists|j: Json| #[trigger] is_response_of(j, resp),
            r matches Err(e) ==> (e matches CompletionError::HttpStatusError(st, _) ==> st != 200),
    {
        let body = build_request_body(params, transcript);
        let auth = build_auth(creds);
        match self.transport.send(CHAT_COMPLETIONS_ENDPOINT, auth.as_str(), body.as_str()) {
            Err(e) => Err(CompletionError::TransportError(e)),
            Ok((status, text)) => classify_response(status, text),
        }
    }
}

/// `j` holds a bearer key reading `key` under `openai_key`.
pub open spec fn credentials_in(j: Json, key: Seq<char>) -> bool {
    j matches Json::Obj(o) && olookup(o, "openai_key"@) matches Some(Json::Str(s)) && s@ == key
}

/// Reads a credentials document: an object binding `openai_key` to the
/// bearer key.
pub fn parse_credentials(text: &str) -> (r: Option<Credentials>)
    ensures
        r matches Some(c) ==> exists|j: Json|
            #[trigger] is_document(text@, j) && credentials_in(j, c.key@),
{
    let j = match parse_document(text) {
        Some(j) => j,
        None => {
            return None;
        },
    };
    let o = match &j {
        Json::Obj(o) => o,
        _ => {
            return None;
        },
    };
    match crate::json::get_field(o, "openai_key") {
        Some(Json::Str(s)) => {
            let c = Credentials { key: s.clone() };
            proof {
                assert(is_document(text@, j) && credentials_in(j, c.key@));
            }
            Some(c)
        },
        _ => None,
    }
}

/// A response value exists only for a body whose `usage` object carries
/// `total_tokens` itself: a body without it yields no response at all,
/// zero-filled or otherwise.
pub proof fn lemma_response_requires_total_tokens(j: Json, r: CompletionResponse)
    requires
        is_response_of(j, r),
    ensures
        j matches Json::Obj(o) && olookup(o, "usage"@) matches Some(Json::Obj(uo)) && olookup(
            uo,
            "total_tokens"@,
        ) is Some,
{
}

/// `j` is no object, or its `usage` member is absent, is no object, or
/// lacks `total_tokens`.
pub open spec fn lacks_total_tokens(j: Json) -> bool {
    match j {
        Json::Obj(o) => match olookup(o, "usage"@) {
            Some(Json::Obj(uo)) => olookup(uo, "total_tokens"@) is None,
            Some(_) => true,
            None => true,
        },
        _ => true,
    }
}

/// A document that lacks `usage.total_tokens` has no response value at
/// all: in particular, none with the missing counter zero-filled.
pub proof fn lemma_missing_total_tokens_has_no_response(j: Json, resp: CompletionResponse)
    requires
        lacks_total_tokens(j),
    ensures
        !is_response_of(j, resp),
{
    if is_response_of(j, resp) {
        lemma_response_requires_total_tokens(j, resp);
    }
}

/// When a 200 body has no reading with `usage.total_tokens`, the outcome
/// that `classify_response` promises for it can only be the
/// deserialization error, never a response.
pub proof fn lemma_missing_total_tokens_classifies_as_error(
    body: Seq<char>,
    r: Result<CompletionResponse, CompletionError>,
)
    requires
        match r {
            Ok(resp) => exists|j: Json| #[trigger] is_document(body, j) && is_response_of(j, resp),
            Err(e) => e == CompletionError::DeserializationError,
        },
        forall|j: Json| #[trigger] is_document(body, j) ==> lacks_total_tokens(j),
    ensures
        r matches Err(e) && e == CompletionError::DeserializationError,
{
    match r {
        Ok(resp) => {
            let j = choose|j: Json| #[trigger] is_document(body, j) && is_response_of(j, resp);
            lemma_missing_total_tokens_has_no_response(j, resp);
        },
        Err(e) => {
        },
    }
}

/// A response value exists only for a body whose top object carries
/// `choices` as an array.
pub proof fn lemma_response_requires_choices(j: Json, r: CompletionResponse)
    requires
        is_response_of(j, r),
    ensures
        j matches Json::Obj(o) && olookup(o, "choices"@) matches Some(Json::Arr(_)),
{
}

} // verus!
