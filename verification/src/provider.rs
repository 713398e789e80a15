//! What is exchanged with a language-model provider: messages, tool calls,
//! responses and errors, and a provider that replays prepared responses.
use vstd::prelude::*;
use vstd::string::*;
use std::collections::VecDeque;

verus! {

/// A chat message exchanged with the language model.
#[derive(Clone, Debug, PartialEq, Eq)]
pub struct Message {
    pub role: String,
    pub content: String,
}

/// The mathematical content of a message.
pub struct MessageModel {
    pub role: Seq<char>,
    pub content: Seq<char>,
}

impl View for Message {
    type V = MessageModel;

    open spec fn view(&self) -> MessageModel {
        MessageModel { role: self.role@, content: self.content@ }
    }
}

/// The models of a sequence of messages.
pub open spec fn models(msgs: Seq<Message>) -> Seq<MessageModel> {
    msgs.map_values(|m: Message| m@)
}

impl Message {
    /// A message with the given role and content.
    pub fn new(role: &str, content: &str) -> (m: Message)
        ensures
            m.role@ == role@,
            m.content@ == content@,
    {
        Message { role: role.to_string(), content: content.to_string() }
    }

    /// A copy of the message.
    pub fn copy(&self) -> (m: Message)
        ensures
            m == *self,
    {
        Message { role: self.role.clone(), content: self.content.clone() }
    }
}

/// A call of a tool requested by the model. `args` holds the JSON text of the
/// call's arguments.
#[derive(Clone, Debug, PartialEq, Eq)]
pub struct ToolCall {
    pub id: String,
    pub name: String,
    pub args: String,
}

impl ToolCall {
    /// A copy of the call.
    pub fn copy(&self) -> (r: ToolCall)
        ensures
            r == *self,
    {
        ToolCall { id: self.id.clone(), name: self.name.clone(), args: self.args.clone() }
    }
}

/// A completion: the model's text and the tool calls it requests, in order.
#[derive(Clone, Debug, PartialEq, Eq)]
pub struct ProviderResponse {
    pub content: String,
    pub tool_calls: Vec<ToolCall>,
}

/// Why a completion failed.
#[derive(Clone, Debug, PartialEq, Eq)]
pub enum ProviderError {
    RequestFailed(String),
    ParseFailed(String),
}

/// The text of a provider error.
pub open spec fn provider_error_text(e: ProviderError) -> Seq<char> {
    match e {
        ProviderError::RequestFailed(m) => "Request failed: "@ + m@,
        ProviderError::ParseFailed(m) => "Parse failed: "@ + m@,
    }
}

impl ProviderError {
    /// The text of the error.
    pub fn to_string(&self) -> (r: String)
        ensures
            r@ == provider_error_text(*self),
    {
        match self {
            ProviderError::RequestFailed(m) => {
                let mut s = "Request failed: ".to_string();
                s.append(m.as_str());
                s
            },
            ProviderError::ParseFailed(m) => {
                let mut s = "Parse failed: ".to_string();
                s.append(m.as_str());
                s
            },
        }
    }
}

/// The text of the error given once the prepared responses are used up.
pub open spec fn exhausted_text() -> Seq<char> {
    "No more mocked responses available"@
}

/// A provider that answers with prepared responses, one per completion, in order.
pub struct MockProvider {
    pub responses: VecDeque<ProviderResponse>,
}

impl MockProvider {
    /// A provider that will answer with the responses in order.
    pub fn new(responses: Vec<ProviderResponse>) -> (r: MockProvider)
        ensures
            r.responses@ == responses@,
    {
        let mut q: VecDeque<ProviderResponse> = VecDeque::new();
        let mut rest = responses;
        while rest.len() > 0
            invariant
                q@ + rest@ == responses@,
            decreases rest.len(),
        {
            let ghost before = rest@;
            let r = rest.remove(0);
            q.push_back(r);
            proof {
                assert(before =~= seq![r] + rest@);
            }
        }
        proof {
            assert(q@ =~= q@ + rest@);
        }
        MockProvider { responses: q }
    }

    /// The next prepared response, or an error once they are used up.
    pub fn complete(&mut self, messages: &[Message]) -> (r: Result<ProviderResponse, ProviderError>)
        ensures
            old(self).responses@.len() > 0 ==> (r == Ok::<ProviderResponse, ProviderError>(
                old(self).responses@[0],
            ) && final(self).responses@ == old(self).responses@.drop_first()),
            old(self).responses@.len() == 0 ==> (r matches Err(ProviderError::RequestFailed(m))
                && m@ == exhausted_text() && final(self).responses@ == old(self).responses@),
    {
        match self.responses.pop_front() {
            Some(resp) => Ok(resp),
            None => Err(ProviderError::RequestFailed("No more mocked responses available".to_string())),
        }
    }
}

} // verus!
