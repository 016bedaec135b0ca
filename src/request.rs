//! The chat request: the model, the messages of the chosen preset with the
//! diff in place, and the streaming flag, written as JSON.

use vstd::prelude::*;

use crate::json::{json_text, write_json, Json};
use crate::prompt::{
    get_messages, messages_view, named, selected_messages, substitute_diff, substituted, Config, Message,
    PromptError,
};

verus! {

/// The body of a chat request.
#[derive(Debug)]
pub struct RequestBody {
    pub model: String,
    pub messages: Vec<Message>,
    pub stream: bool,
}

/// `j` is the object `{"role": .., "content": ..}` of message `m`.
pub open spec fn describes_message(j: Json, m: Message) -> bool {
    &&& j matches Json::Object(fs)
    &&& fs@.len() == 2
    &&& fs@[0].0@ == "role"@
    &&& (fs@[0].1 matches Json::Str(r) && r@ == m.role@)
    &&& fs@[1].0@ == "content"@
    &&& (fs@[1].1 matches Json::Str(c) && c@ == m.content@)
}

/// `j` is the object `{"model": .., "messages": [..], "stream": ..}` of `b`.
pub open spec fn describes_request(j: Json, b: RequestBody) -> bool {
    &&& j matches Json::Object(fs)
    &&& fs@.len() == 3
    &&& fs@[0].0@ == "model"@
    &&& (fs@[0].1 matches Json::Str(m) && m@ == b.model@)
    &&& fs@[1].0@ == "messages"@
    &&& (fs@[1].1 matches Json::Array(ms) && ms@.len() == b.messages@.len() && forall|i: int|
        0 <= i < ms@.len() ==> describes_message(#[trigger] ms@[i], b.messages@[i]))
    &&& fs@[2].0@ == "stream"@
    &&& fs@[2].1 == Json::Bool(b.stream)
}

/// Builds the streaming request for preset `preset` of `config`, with `diff`
/// in place of every placeholder; fails unless exactly one preset has that
/// name.
pub fn build_request(config: &Config, preset: &str, diff: &str) -> (r: Result<
    RequestBody,
    PromptError,
>)
    ensures
        r is Ok <==> selected_messages(config.prompts@, preset@) is Some,
        r == Err::<RequestBody, PromptError>(PromptError::UnknownPreset) <==> !exists|k: int|
            named(config.prompts@, preset@, k),
        r == Err::<RequestBody, PromptError>(PromptError::DuplicatePreset) <==> exists|
            i: int,
            k: int,
        | i != k && named(config.prompts@, preset@, i) && named(config.prompts@, preset@, k),
        r matches Ok(b) ==> {
            &&& b.model@ == config.model@
            &&& b.stream
            &&& messages_view(b.messages@) == substituted(
                selected_messages(config.prompts@, preset@)->Some_0,
                diff@,
            )
        },
{
    let messages = match get_messages(config, preset) {
        Ok(ms) => ms,
        Err(e) => return Err(e),
    };
    let messages = substitute_diff(&messages, diff);
    Ok(RequestBody { model: config.model.as_str().to_owned(), messages, stream: true })
}

/// Writes one message as a JSON object.
fn message_json(m: &Message) -> (r: Json)
    ensures
        describes_message(r, *m),
{
    let fields = vec![
        (String::from_str("role"), Json::Str(m.role.as_str().to_owned())),
        (String::from_str("content"), Json::Str(m.content.as_str().to_owned())),
    ];
    Json::Object(fields)
}

impl RequestBody {
    /// The request as a JSON object.
    pub fn to_json(&self) -> (r: Json)
        ensures
            describes_request(r, *self),
    {
        let mut ms: Vec<Json> = Vec::new();
        let mut i: usize = 0;
        while i < self.messages.len()
            invariant
                i <= self.messages@.len(),
                ms@.len() == i,
                forall|k: int| 0 <= k < i ==> describes_message(#[trigger] ms@[k], self.messages@[k]),
            decreases self.messages.len() - i,
        {
            ms.push(message_json(&self.messages[i]));
            i = i + 1;
        }
        let fields = vec![
            (String::from_str("model"), Json::Str(self.model.as_str().to_owned())),
            (String::from_str("messages"), Json::Array(ms)),
            (String::from_str("stream"), Json::Bool(self.stream)),
        ];
        Json::Object(fields)
    }

    /// The request as compact JSON text. The members of each object are
    /// written in the order of their names, not in the order of `to_json`.
    pub fn to_text(&self) -> (r: String)
        ensures
            exists|j: Json| describes_request(j, *self) && r@ == json_text(j),
    {
        let j = self.to_json();
        write_json(&j)
    }
}

} // verus!
