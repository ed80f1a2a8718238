//! A record-and-playback HTTP intermediary for tests.
//!
//! In Record mode each request from the test is forwarded to a real upstream
//! origin and the request/response pair is appended to an on-disk Markdown
//! conversation file. In Playback mode previously captured responses are
//! replayed in file order without any network call. This crate holds the
//! verified core: the interaction data model, the Markdown conversation codec
//! with its structural diff, the mutation pipeline, the configuration, and the
//! record/playback engine state machine. The listener, file and network I/O
//! live outside the library and hand it plain values.

pub mod data;
pub mod error;
pub mod http_client;
pub mod markdown;
pub mod markdown_manager;
pub mod mutations;
pub mod pattern;
pub mod servirtium_configuration;
pub mod servirtium_server;
pub mod test_session;
pub mod text;

pub use data::{InteractionData, RequestData, ResponseData};
pub use error::Error;
pub use http_client::ReqwestHttpClient;
pub use markdown::MarkdownInteractionManager;
pub use markdown_manager::{MarkdownData, MarkdownManager};
pub use mutations::{
    BodyMutation, HeadersMutation, MutationsBuilder, RequestMutation, ResponseMutation,
};
pub use pattern::RegexPattern;
pub use servirtium_configuration::ServirtiumConfiguration;
pub use servirtium_server::{ServirtiumMode, ServirtiumServer};
