use vstd::prelude::*;

verus! {

/// Speaker of one conversation turn. The provider accepts exactly these
/// three role labels.
#[derive(Clone, Copy, Debug, PartialEq, Eq, Structural)]
pub enum Role {
    System,
    User,
    Assistant,
}

impl Role {
    /// The provider's wire name for this role.
    pub open spec fn spec_name(self) -> Seq<char> {
        match self {
            Role::System => "system"@,
            Role::User => "user"@,
            Role::Assistant => "assistant"@,
        }
    }

    /// The role a wire name denotes, if any.
    pub open spec fn spec_of_name(s: Seq<char>) -> Option<Role> {
        if s == "system"@ {
            Some(Role::System)
        } else if s == "user"@ {
            Some(Role::User)
        } else if s == "assistant"@ {
            Some(Role::Assistant)
        } else {
            None
        }
    }

    pub fn name(self) -> (r: &'static str)
        ensures
            r@ == self.spec_name(),
    {
        match self {
            Role::System => "system",
            Role::User => "user",
            Role::Assistant => "assistant",
        }
    }
}

/// One labeled utterance: a speaker role and its text.
#[derive(Clone, Debug, PartialEq)]
pub struct Turn {
    pub role: Role,
    pub content: String,
}

/// An ordered conversation history. Turns are only ever appended; nothing
/// removes or reorders them.
#[derive(Clone, Debug)]
pub struct Transcript {
    pub turns: Vec<Turn>,
}

impl View for Transcript {
    type V = Seq<Turn>;

    open spec fn view(&self) -> Seq<Turn> {
        self.turns@
    }
}

impl Transcript {
    /// An empty conversation.
    pub fn new() -> (r: Transcript)
        ensures
            r@ == Seq::<Turn>::empty(),
    {
        Transcript { turns: Vec::new() }
    }

    /// Adds one turn at the end; every earlier turn keeps its place.
    pub fn append(&mut self, role: Role, content: String)
        ensures
            final(self)@ == old(self)@.push(Turn { role, content }),
    {
        self.turns.push(Turn { role, content });
    }

    /// Number of turns so far.
    pub fn len(&self) -> (r: usize)
        ensures
            r == self@.len(),
    {
        self.turns.len()
    }
}

/// Request parameters for one completion call.
///
/// The provider's numeric parameters are real-valued; this model carries
/// each of them as a signed count of thousandths, so `1000` stands for the
/// value one and `200` for one fifth. The serializer renders a thousandths
/// count as a decimal numeral with three fraction digits.
#[derive(Clone, Debug, PartialEq)]
pub struct GenerationParameters {
    /// Provider model identifier.
    pub model: String,
    /// Sampling temperature in thousandths; the provider accepts zero to two,
    /// so zero to 2000 here.
    pub temperature_milli: i64,
    /// Nucleus-sampling bound in thousandths; zero to 1000.
    pub top_p_milli: i64,
    /// How many completions to request; at least one.
    pub candidate_count: u32,
    /// Streaming switch; this client supports only `false`.
    pub stream: bool,
    /// Optional stop sequences.
    pub stop_sequences: Option<Vec<String>>,
    /// Upper bound on generated tokens; at least one.
    pub max_output_tokens: u32,
    /// Presence penalty in thousandths; minus 2000 to 2000.
    pub presence_penalty_milli: i64,
    /// Frequency penalty in thousandths; minus 2000 to 2000.
    pub frequency_penalty_milli: i64,
    /// Per-token bias in thousandths, keyed by token identifier.
    pub logit_bias: Vec<(String, i64)>,
}

impl GenerationParameters {
    /// Ranges the provider documents for each parameter, in thousandths,
    /// and pairwise distinct bias keys: `logit_bias` stands for a map.
    pub open spec fn wf(self) -> bool {
        &&& 0 <= self.temperature_milli <= 2000
        &&& 0 <= self.top_p_milli <= 1000
        &&& self.candidate_count >= 1
        &&& !self.stream
        &&& self.max_output_tokens >= 1
        &&& -2000 <= self.presence_penalty_milli <= 2000
        &&& -2000 <= self.frequency_penalty_milli <= 2000
        &&& forall|k: int|
            0 <= k < self.logit_bias@.len() ==> #[trigger] self.logit_bias@[k].1 > i64::MIN
        &&& forall|k1: int, k2: int|
            0 <= k1 < k2 < self.logit_bias@.len() ==> #[trigger] self.logit_bias@[k1].0@
                != #[trigger] self.logit_bias@[k2].0@
    }

    /// The documented default for every field.
    pub open spec fn is_default(self) -> bool {
        &&& self.model@ == "gpt-3.5-turbo"@
        &&& self.temperature_milli == 1000
        &&& self.top_p_milli == 1000
        &&& self.candidate_count == 1
        &&& self.stream == false
        &&& self.stop_sequences is None
        &&& self.max_output_tokens == 512
        &&& self.presence_penalty_milli == 0
        &&& self.frequency_penalty_milli == 0
        &&& self.logit_bias@ == Seq::<(String, i64)>::empty()
    }

    /// Parameters with every field at its documented default.
    pub fn new() -> (r: GenerationParameters)
        ensures
            r.is_default(),
            r.wf(),
    {
        GenerationParameters {
            model: "gpt-3.5-turbo".to_owned(),
            temperature_milli: 1000,
            top_p_milli: 1000,
            candidate_count: 1,
            stream: false,
            stop_sequences: None,
            max_output_tokens: 512,
            presence_penalty_milli: 0,
            frequency_penalty_milli: 0,
            logit_bias: Vec::new(),
        }
    }
}

/// Two parameter values built with every field at its default agree on
/// every field.
pub proof fn lemma_default_params_agree(a: GenerationParameters, b: GenerationParameters)
    requires
        a.is_default(),
        b.is_default(),
    ensures
        a.model@ == b.model@,
        a.temperature_milli == b.temperature_milli,
        a.top_p_milli == b.top_p_milli,
        a.candidate_count == b.candidate_count,
        a.stream == b.stream,
        a.stop_sequences is None && b.stop_sequences is None,
        a.max_output_tokens == b.max_output_tokens,
        a.presence_penalty_milli == b.presence_penalty_milli,
        a.frequency_penalty_milli == b.frequency_penalty_milli,
        a.logit_bias@ == b.logit_bias@,
{
}

/// The bearer key for the provider account.
#[derive(Clone, Debug)]
pub struct Credentials {
    pub key: String,
}

/// Token accounting the provider reports with a completion.
#[derive(Clone, Copy, Debug, PartialEq, Eq, Structural)]
pub struct UsageStats {
    pub prompt_tokens: u32,
    pub completion_tokens: u32,
    pub total_tokens: u32,
}

/// One generated completion inside a response.
///
/// `log_probabilities` keeps each reported number as its exact decimal
/// text, so no precision is lost to any numeric conversion.
#[derive(Clone, Debug, PartialEq)]
pub struct Choice {
    pub index: u32,
    pub finish_reason: String,
    pub message: Turn,
    pub log_probabilities: Option<Vec<(String, String)>>,
}

/// A parsed success response.
#[derive(Clone, Debug, PartialEq)]
pub struct CompletionResponse {
    pub id: String,
    pub created: u64,
    pub choices: Vec<Choice>,
    pub usage: UsageStats,
}

/// Why a completion call failed. Each failure is terminal for its call;
/// nothing here is retried.
#[derive(Clone, Debug, PartialEq)]
pub enum CompletionError {
    /// The transport could not deliver the request or obtain a response.
    TransportError(String),
    /// A response arrived with a status other than 200; the raw body is
    /// kept for diagnostics.
    HttpStatusError(u16, String),
    /// The status was 200 but the body does not match the response schema.
    DeserializationError,
}

} // verus!
