//! The browser app's chat logic: what a submitted message adds to the
//! conversation, how a session is named, and what the in-browser worker answers.
use vstd::prelude::*;
use vstd::string::*;
use crate::text::{to_chars, from_chars, trim, trim_bounds, byte_len, dec, u64_to_string};
use crate::http_reply::{char_prefix, lemma_char_prefix_range};

verus! {

/// A line of the chat shown by the app.
#[derive(Clone, Debug, PartialEq, Eq)]
pub struct ChatMessage {
    pub sender: String,
    pub content: String,
}

/// The mathematical content of a chat line.
pub struct ChatModel {
    pub sender: Seq<char>,
    pub content: Seq<char>,
}

impl View for ChatMessage {
    type V = ChatModel;

    open spec fn view(&self) -> ChatModel {
        ChatModel { sender: self.sender@, content: self.content@ }
    }
}

/// The models of chat lines.
pub open spec fn chat_models(v: Seq<ChatMessage>) -> Seq<ChatModel> {
    v.map_values(|m: ChatMessage| m@)
}

/// The chat the app opens with: a welcome from the system.
pub fn initial_chat() -> (r: Vec<ChatMessage>)
    ensures
        chat_models(r@) == seq![ChatModel { sender: "System"@, content: "Welcome to swal-pwa!"@ }],
{
    let mut v: Vec<ChatMessage> = Vec::new();
    v.push(
        ChatMessage { sender: "System".to_string(), content: "Welcome to swal-pwa!".to_string() },
    );
    proof {
        assert(chat_models(v@) =~= seq![
            ChatModel { sender: "System"@, content: "Welcome to swal-pwa!"@ },
        ]);
    }
    v
}

/// The session names the app lists before any is loaded.
pub fn initial_sessions() -> (r: Vec<String>)
    ensures
        r@.len() == 3,
        r@[0]@ == "Session 1"@,
        r@[1]@ == "Session 2"@,
        r@[2]@ == "Session 3"@,
{
    let mut v: Vec<String> = Vec::new();
    v.push("Session 1".to_string());
    v.push("Session 2".to_string());
    v.push("Session 3".to_string());
    v
}

/// What the local worker answers to a task.
pub open spec fn worker_reply_text(task: Seq<char>) -> Seq<char> {
    "Local run completed: '"@ + task + "'"@
}

/// Runs a task in the local worker.
pub fn run_task(task: &str) -> (r: String)
    ensures
        r@ == worker_reply_text(task@),
{
    let mut r = "Local run completed: '".to_string();
    r.append(task);
    r.append("'");
    r
}

/// Submits the text typed by the user: blank text (white space only) changes
/// nothing; otherwise the user's line and the worker's answer are added to the
/// chat, and the worker's answer is returned.
pub fn submit(chat: &mut Vec<ChatMessage>, text: &str) -> (r: Option<String>)
    ensures
        trim(text@).len() == 0 ==> r is None && final(chat)@ == old(chat)@,
        trim(text@).len() > 0 ==> (r matches Some(w) && w@ == worker_reply_text(text@) && chat_models(
            final(chat)@,
        ) == chat_models(old(chat)@) + seq![
            ChatModel { sender: "User"@, content: text@ },
            ChatModel { sender: "Worker"@, content: "Worker output: '"@ + w@ + "'"@ },
        ]),
{
    let v = to_chars(text);
    let (a, b) = trim_bounds(&v, 0, v.len());
    proof {
        assert(v@.subrange(0, v@.len() as int) =~= text@);
    }
    if a == b {
        return None;
    }
    let ghost before = chat_models(chat@);
    chat.push(ChatMessage { sender: "User".to_string(), content: text.to_string() });
    let reply = run_task(text);
    let mut shown = "Worker output: '".to_string();
    shown.append(reply.as_str());
    shown.append("'");
    chat.push(ChatMessage { sender: "Worker".to_string(), content: shown });
    proof {
        assert(chat_models(chat@) =~= before + seq![
            ChatModel { sender: "User"@, content: text@ },
            ChatModel { sender: "Worker"@, content: "Worker output: '"@ + reply@ + "'"@ },
        ]);
    }
    Some(reply)
}

/// The identifier of a session created at `now` seconds.
pub fn session_id_for(now: u64) -> (r: String)
    ensures
        r@ == "session_"@ + dec(now as nat),
{
    let mut r = "session_".to_string();
    let d = u64_to_string(now);
    r.append(d.as_str());
    r
}

/// The summary of a session: its first message, cut to its first 30 bytes
/// followed by `...` when it is longer.
pub open spec fn summary_spec(text: Seq<char>) -> Seq<char> {
    if byte_len(text) > 30 {
        match char_prefix(text, 30) {
            Some(k) => text.take(k) + "..."@,
            None => text,
        }
    } else {
        text
    }
}

/// Whether byte 30 of the text falls between two characters (or past its end),
/// so that it can be cut there.
pub open spec fn summary_cut_ok(text: Seq<char>) -> bool {
    byte_len(text) <= 30 || char_prefix(text, 30) is Some
}

/// The summary of a session that starts with `text`.
pub fn session_summary(text: &str) -> (r: String)
    requires
        summary_cut_ok(text@),
        byte_len(text@) <= usize::MAX,
    ensures
        r@ == summary_spec(text@),
{
    if text.len() <= 30 {
        return text.to_string();
    }
    let v = to_chars(text);
    let mut k: usize = 0;
    let mut bytes: usize = 0;
    proof {
        assert(v@.skip(0) =~= v@);
    }
    while bytes < 30 && k < v.len()
        invariant
            k <= v@.len(),
            bytes <= 30,
            v@ == text@,
            char_prefix(v@, 30) == crate::http_reply::shifted(char_prefix(v@.skip(k as int), (30 - bytes) as nat), k as int),
        decreases v@.len() - k,
    {
        let ghost t = v@.skip(k as int);
        proof {
            assert(t[0] == v@[k as int]);
            assert(t.drop_first() =~= v@.skip(k + 1));
        }
        let w = crate::http_reply::utf8_width(v[k]);
        if w > 30 - bytes {
            return text.to_string();
        }
        bytes = bytes + w;
        k = k + 1;
    }
    if bytes < 30 {
        return text.to_string();
    }
    let mut r = from_chars(&v, 0, k);
    proof {
        lemma_char_prefix_range(v@, 30);
        assert(r@ =~= v@.take(k as int));
    }
    r.append("...");
    r
}

/// What the model answers outside the browser.
pub fn native_reply(model: &str) -> (r: String)
    ensures
        r@ == "Native fallback: processed task with model "@ + model@,
{
    let mut r = "Native fallback: processed task with model ".to_string();
    r.append(model);
    r
}

/// The text shown for a task's outcome: the answer, `Empty response` when the
/// model gave no text, or the error.
pub fn task_result_text(res: Result<Option<String>, String>) -> (r: String)
    ensures
        match res {
            Ok(Some(c)) => r@ == c@,
            Ok(None) => r@ == "Empty response"@,
            Err(e) => r@ == "Error executing task: "@ + e@,
        },
{
    match res {
        Ok(Some(c)) => c,
        Ok(None) => "Empty response".to_string(),
        Err(e) => {
            let mut r = "Error executing task: ".to_string();
            r.append(e.as_str());
            r
        },
    }
}

} // verus!
