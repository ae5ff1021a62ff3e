//! Why a request could not be answered.
use vstd::prelude::*;

verus! {

/// The errors of the assistant. Failures of the network, of JSON decoding and of the version
/// manager's own commands are held as their messages.
#[derive(Debug)]
#[allow(inconsistent_fields)]
pub enum Error {
    /// The request was blank.
    EmptyRequest,
    /// The request was not understood (the request, trimmed).
    UnknownRequest { message: String },
    /// The action was understood but not the version that it needs.
    MissingVersion { action: &'static str },
    /// Only one of the provider's base URL and API key is configured.
    MissingAiProviderConfig,
    /// The request to the provider failed.
    AiProviderRequest { source: String },
    /// The provider answered with a status outside 200..=299.
    AiProviderStatus { status: String, body: String },
    /// The provider's answer is not a chat/completions response.
    AiProviderResponse { source: String },
    /// The provider's answer has no choices.
    AiProviderEmptyResponse,
    /// The provider's message holds no JSON object.
    AiProviderInvalidJson { content: String },
    /// The provider's JSON object is not an action.
    AiProviderIntent { source: String, content: String },
    /// The provider named an action outside the fixed set.
    AiProviderUnsupportedAction { action: String },
    /// The provider named a version that cannot be read.
    AiProviderInvalidVersion {
        action: &'static str,
        version: String,
        source: node_semver::SemverError,
    },
    /// Reading or writing the terminal failed.
    Io { source: String },
    /// Installing failed.
    Install { source: String },
    /// Switching versions failed.
    Use { source: String },
    /// Listing the installed versions failed.
    ListLocal { source: String },
    /// Listing the downloadable versions failed.
    ListRemote { source: String },
    /// Reading the version in use failed.
    Current { source: String },
    /// Setting the default version failed.
    Default { source: String },
    /// Uninstalling failed.
    Uninstall { source: String },
}

/// The view of an error: its kind and its fields, texts by their characters.
#[allow(inconsistent_fields)]
pub enum ErrorV {
    EmptyRequest,
    UnknownRequest { message: Seq<char> },
    MissingVersion { action: Seq<char> },
    MissingAiProviderConfig,
    AiProviderRequest { source: Seq<char> },
    AiProviderStatus { status: Seq<char>, body: Seq<char> },
    AiProviderResponse { source: Seq<char> },
    AiProviderEmptyResponse,
    AiProviderInvalidJson { content: Seq<char> },
    AiProviderIntent { source: Seq<char>, content: Seq<char> },
    AiProviderUnsupportedAction { action: Seq<char> },
    AiProviderInvalidVersion {
        action: Seq<char>,
        version: Seq<char>,
        source: node_semver::SemverError,
    },
    Io { source: Seq<char> },
    Install { source: Seq<char> },
    Use { source: Seq<char> },
    ListLocal { source: Seq<char> },
    ListRemote { source: Seq<char> },
    Current { source: Seq<char> },
    Default { source: Seq<char> },
    Uninstall { source: Seq<char> },
}

impl View for Error {
    type V = ErrorV;

    open spec fn view(&self) -> ErrorV {
        match self {
            Error::EmptyRequest => ErrorV::EmptyRequest,
            Error::UnknownRequest { message } => ErrorV::UnknownRequest { message: message@ },
            Error::MissingVersion { action } => ErrorV::MissingVersion { action: action@ },
            Error::MissingAiProviderConfig => ErrorV::MissingAiProviderConfig,
            Error::AiProviderRequest { source } => ErrorV::AiProviderRequest { source: source@ },
            Error::AiProviderStatus { status, body } => ErrorV::AiProviderStatus {
                status: status@,
                body: body@,
            },
            Error::AiProviderResponse { source } => ErrorV::AiProviderResponse { source: source@ },
            Error::AiProviderEmptyResponse => ErrorV::AiProviderEmptyResponse,
            Error::AiProviderInvalidJson { content } => ErrorV::AiProviderInvalidJson {
                content: content@,
            },
            Error::AiProviderIntent { source, content } => ErrorV::AiProviderIntent {
                source: source@,
                content: content@,
            },
            Error::AiProviderUnsupportedAction { action } => ErrorV::AiProviderUnsupportedAction {
                action: action@,
            },
            Error::AiProviderInvalidVersion { action, version, source } =>
                ErrorV::AiProviderInvalidVersion {
                action: action@,
                version: version@,
                source: *source,
            },
            Error::Io { source } => ErrorV::Io { source: source@ },
            Error::Install { source } => ErrorV::Install { source: source@ },
            Error::Use { source } => ErrorV::Use { source: source@ },
            Error::ListLocal { source } => ErrorV::ListLocal { source: source@ },
            Error::ListRemote { source } => ErrorV::ListRemote { source: source@ },
            Error::Current { source } => ErrorV::Current { source: source@ },
            Error::Default { source } => ErrorV::Default { source: source@ },
            Error::Uninstall { source } => ErrorV::Uninstall { source: source@ },
        }
    }
}

} // verus!
