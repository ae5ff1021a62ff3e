//! Answering messages: local parsing first, the provider only for what it does not understand.
use vstd::prelude::*;
use crate::error::{Error, ErrorV};
use crate::intent::{parse_intent, parse_intent_of, Flow, Intent, IntentV};
use crate::provider::{
    extract_json_object, json_object_of, str_view, truncate_for_error, truncated_of,
    AiProviderConfig,
};
use crate::text::{chars_of, push_all, push_str, string_from_chars, trim, trim_ws};

verus! {

/// The command line: the words of a request, or none for a conversation.
#[derive(Debug)]
pub struct Ai {
    pub message: Vec<String>,
}

/// The words joined by single spaces.
pub open spec fn joined(words: Seq<Seq<char>>) -> Seq<char>
    decreases words.len(),
{
    if words.len() == 0 {
        seq![]
    } else if words.len() == 1 {
        words[0]
    } else {
        joined(words.drop_last()) + " "@ + words.last()
    }
}

pub open spec fn string_views(v: Seq<String>) -> Seq<Seq<char>> {
    v.map_values(|s: String| s@)
}

impl Ai {
    /// The request that the command line holds: its words joined by spaces, or `None` when it
    /// holds none and a conversation starts instead.
    pub fn request_text(&self) -> (r: Option<String>)
        ensures
            self.message@.len() == 0 ==> r is None,
            self.message@.len() > 0 ==> (r matches Some(t) && t@ == joined(
                string_views(self.message@),
            )),
    {
        if self.message.len() == 0 {
            return None;
        }
        let ghost ws = string_views(self.message@);
        let mut out: Vec<char> = Vec::new();
        let mut i: usize = 0;
        while i < self.message.len()
            invariant
                i <= self.message@.len(),
                self.message@.len() > 0,
                ws == string_views(self.message@),
                out@ == joined(ws.take(i as int)),
            decreases self.message.len() - i,
        {
            let w = chars_of(self.message[i].as_str());
            if i > 0 {
                push_str(&mut out, " ");
            }
            push_all(&mut out, &w);
            assert(ws.take(i + 1).drop_last() =~= ws.take(i as int));
            assert(ws.take(i + 1).last() == self.message@[i as int]@);
            if i == 0 {
                assert(out@ =~= joined(ws.take(1)));
            }
            i += 1;
        }
        assert(ws.take(self.message@.len() as int) =~= ws);
        Some(string_from_chars(&out))
    }
}

impl Intent {
    /// Whether the conversation goes on after the intent is carried out: only `exit` ends it.
    pub fn flow(&self) -> (r: Flow)
        ensures
            r == (if self@ is Exit {
                Flow::Exit
            } else {
                Flow::Continue
            }),
    {
        match self {
            Intent::Exit => Flow::Exit,
            _ => Flow::Continue,
        }
    }
}

/// What to do next with a message.
#[derive(Debug)]
pub enum Step {
    /// Carry out the intent.
    Perform(Intent),
    /// Ask the provider, which is configured so.
    AskProvider(AiProviderConfig),
    /// Answer with the error.
    Fail(Error),
}

/// `parse_intent_with_provider`, up to the request: the provider is asked when it is
/// configured; without a configuration the message is not understood; a refused configuration
/// is an error.
pub fn parse_intent_with_provider(message: &str, config: Result<Option<AiProviderConfig>, Error>) -> (r:
    Result<AiProviderConfig, Error>)
    ensures
        match config {
            Ok(Some(c)) => r == Ok::<AiProviderConfig, Error>(c),
            Ok(None) => r matches Err(e) && e@ == (ErrorV::UnknownRequest {
                message: trim_ws(message@),
            }),
            Err(e) => r == Err::<AiProviderConfig, Error>(e),
        },
{
    match config {
        Ok(Some(c)) => Ok(c),
        Ok(None) => {
            let t = trim(&chars_of(message));
            Err(Error::UnknownRequest { message: string_from_chars(&t) })
        },
        Err(e) => Err(e),
    }
}

/// `handle_message`: the local parser reads the message first; only a message it does not
/// understand goes to the provider (or, unconfigured, stays not understood). `config` is the
/// provider's configuration as the environment gives it; it is looked at only then.
pub fn handle_message(message: &str, config: Result<Option<AiProviderConfig>, Error>) -> (r: Step)
    ensures
        match parse_intent_of(message@) {
            Ok(iv) => r matches Step::Perform(i) && i@ == iv,
            Err(ErrorV::UnknownRequest { .. }) => match config {
                Ok(Some(c)) => r == Step::AskProvider(c),
                Ok(None) => r matches Step::Fail(e) && e@ == (ErrorV::UnknownRequest {
                    message: trim_ws(message@),
                }),
                Err(e) => r == Step::Fail(e),
            },
            Err(ev) => r matches Step::Fail(e) && e@ == ev,
        },
{
    match parse_intent(message) {
        Ok(intent) => Step::Perform(intent),
        Err(Error::UnknownRequest { .. }) => match parse_intent_with_provider(message, config) {
            Ok(c) => Step::AskProvider(c),
            Err(e) => Step::Fail(e),
        },
        Err(e) => Step::Fail(e),
    }
}

/// Whether an HTTP status is a success (`200..=299`).
pub open spec fn is_success_status(code: u16) -> bool {
    200 <= code <= 299
}

/// The part of `request_provider_intent` between the HTTP exchange and the decoding of the
/// action: a failed status is an error that quotes the body; an undecodable response, or one
/// without choices, is an error; else the content of the first choice.
pub fn check_provider_response(
    status_code: u16,
    status: String,
    body: &str,
    contents: Result<Vec<String>, String>,
) -> (r: Result<String, Error>)
    ensures
        !is_success_status(status_code) ==> (r matches Err(e) && e@ == (ErrorV::AiProviderStatus {
            status: status@,
            body: truncated_of(body@),
        })),
        is_success_status(status_code) ==> match contents {
            Err(s) => r matches Err(e) && e@ == (ErrorV::AiProviderResponse { source: s@ }),
            Ok(cs) => if cs@.len() == 0 {
                r matches Err(e) && e@ == ErrorV::AiProviderEmptyResponse
            } else {
                r matches Ok(c) && c == cs@[0]
            },
        },
{
    if !(200 <= status_code && status_code <= 299) {
        return Err(Error::AiProviderStatus { status, body: truncate_for_error(body) });
    }
    match contents {
        Err(source) => Err(Error::AiProviderResponse { source }),
        Ok(mut cs) => {
            if cs.len() == 0 {
                Err(Error::AiProviderEmptyResponse)
            } else {
                Ok(cs.swap_remove(0))
            }
        },
    }
}

/// The JSON object in the provider's message, or an error that quotes the message.
pub fn provider_json(content: &str) -> (r: Result<String, Error>)
    ensures
        match json_object_of(content@) {
            Some(j) => r matches Ok(s) && s@ == j,
            None => r matches Err(e) && e@ == (ErrorV::AiProviderInvalidJson {
                content: truncated_of(content@),
            }),
        },
{
    match extract_json_object(content) {
        Some(j) => Ok(j),
        None => Err(Error::AiProviderInvalidJson { content: truncate_for_error(content) }),
    }
}

/// The error for a JSON object that does not decode as an action; it quotes the message.
pub fn provider_intent_error(source: String, content: &str) -> (r: Error)
    ensures
        r@ == (ErrorV::AiProviderIntent { source: source@, content: truncated_of(content@) }),
{
    Error::AiProviderIntent { source, content: truncate_for_error(content) }
}

} // verus!
