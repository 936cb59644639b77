pub mod client;
pub mod envelope;
pub mod json;
pub mod model;

pub use client::classify_response;
pub use client::decode_response;
pub use client::parse_credentials;
pub use client::CompletionClient;
pub use client::Transport;
pub use client::CHAT_COMPLETIONS_ENDPOINT;
pub use envelope::build_request_body;
pub use envelope::params_wf_check;
pub use envelope::parse_request;
pub use model::Choice;
pub use model::CompletionError;
pub use model::CompletionResponse;
pub use model::Credentials;
pub use model::GenerationParameters;
pub use model::Role;
pub use model::Transcript;
pub use model::Turn;
pub use model::UsageStats;
