//! The agent loop as a state machine: it decides, after each provider reply and
//! each tool result, what the caller must do next (ask the provider, run a
//! tool, or stop), and keeps the conversation that the provider sees.
use vstd::prelude::*;
use vstd::string::*;
use crate::provider::{Message, MessageModel, models, ToolCall, ProviderResponse};
use crate::skills::{Skill, SkillModel, skill_models};

verus! {

/// Why a run of the agent loop failed.
#[derive(Clone, Debug, PartialEq, Eq)]
pub enum LoopError {
    MaxSteps,
    Provider(String),
    Tool(String),
    NoFinalResponse,
}

/// The text of a loop error.
pub open spec fn loop_error_text(e: LoopError) -> Seq<char> {
    match e {
        LoopError::MaxSteps => "Maximum steps exceeded"@,
        LoopError::Provider(m) => "Provider error: "@ + m@,
        LoopError::Tool(m) => "Tool execution error: "@ + m@,
        LoopError::NoFinalResponse => "No final response received"@,
    }
}

impl LoopError {
    /// The text of the error.
    pub fn to_string(&self) -> (r: String)
        ensures
            r@ == loop_error_text(*self),
    {
        match self {
            LoopError::MaxSteps => "Maximum steps exceeded".to_string(),
            LoopError::Provider(m) => {
                let mut s = "Provider error: ".to_string();
                s.append(m.as_str());
                s
            },
            LoopError::Tool(m) => {
                let mut s = "Tool execution error: ".to_string();
                s.append(m.as_str());
                s
            },
            LoopError::NoFinalResponse => "No final response received".to_string(),
        }
    }
}

/// The result of a successful run: the final answer, the step that gave it,
/// and how many tool calls were executed on the way.
#[derive(Clone, Debug, PartialEq, Eq)]
pub struct AgentOutput {
    pub content: String,
    pub steps: usize,
    pub tool_calls_executed: usize,
}

/// What the caller of the loop must do next.
#[derive(Debug, PartialEq, Eq)]
pub enum LoopAction {
    /// Ask the provider to complete the conversation `LoopRun::messages`.
    Complete,
    /// Execute this tool call and report its result.
    CallTool(ToolCall),
    /// The run is over, with this outcome.
    Finish(Result<AgentOutput, LoopError>),
}

/// The number of messages with the role.
pub open spec fn count_role(msgs: Seq<MessageModel>, role: Seq<char>) -> nat
    decreases msgs.len(),
{
    if msgs.len() == 0 {
        0
    } else {
        count_role(msgs.drop_last(), role) + if msgs.last().role == role {
            1nat
        } else {
            0nat
        }
    }
}

proof fn lemma_other_roles()
    ensures
        "system"@ != tool_role(),
        "user"@ != tool_role(),
        "assistant"@ != tool_role(),
{
    reveal_strlit("system");
    reveal_strlit("user");
    reveal_strlit("assistant");
    reveal_strlit("tool");
    assert("system"@[0] != tool_role()[0]);
    assert("user"@[0] != tool_role()[0]);
    assert("assistant"@.len() != tool_role().len());
}

proof fn lemma_count_role_bound(msgs: Seq<MessageModel>, role: Seq<char>)
    ensures
        count_role(msgs, role) <= msgs.len(),
    decreases msgs.len(),
{
    if msgs.len() > 0 {
        lemma_count_role_bound(msgs.drop_last(), role);
    }
}

/// The state of one run of the agent loop.
pub struct LoopRun {
    /// The conversation so far, as the provider sees it.
    pub messages: Vec<Message>,
    /// The most completions the run may ask for.
    pub max_steps: usize,
    /// The number of the current step; step `n` asks for the `n`-th completion.
    pub step: usize,
    /// How many tool calls have been executed.
    pub tool_calls_executed: usize,
    /// The tool calls of the current completion.
    pub pending: Vec<ToolCall>,
    /// Which of `pending` runs next.
    pub next_call: usize,
    /// Whether the run is over.
    pub finished: bool,
}

/// The system message, if there is a system prompt.
pub open spec fn system_part(system_prompt: Option<String>) -> Seq<MessageModel> {
    match system_prompt {
        Some(p) => seq![MessageModel { role: "system"@, content: p@ }],
        None => Seq::<MessageModel>::empty(),
    }
}

/// The role of tool results in the conversation.
pub open spec fn tool_role() -> Seq<char> {
    "tool"@
}

impl LoopRun {
    /// The conversation's model.
    pub open spec fn conversation(&self) -> Seq<MessageModel> {
        models(self.messages@)
    }

    /// The run waits for a completion.
    pub open spec fn awaits_completion(&self) -> bool {
        !self.finished && self.pending@.len() == 0
    }

    /// The run waits for the result of `pending[next_call]`.
    pub open spec fn awaits_tool(&self) -> bool {
        !self.finished && self.next_call < self.pending@.len()
    }

    /// The run's invariant: a running loop is within its step budget and waits
    /// for exactly one thing, and the count of executed tool calls is the
    /// number of tool results in the conversation.
    pub open spec fn wf(&self) -> bool {
        &&& !self.finished ==> 1 <= self.step <= self.max_steps
        &&& !self.finished ==> (self.awaits_completion() || self.awaits_tool())
        &&& self.pending@.len() == 0 ==> self.next_call == 0
        &&& self.tool_calls_executed == count_role(self.conversation(), tool_role())
    }

    /// Starts a run on a task: the conversation is the system prompt, if any,
    /// then the task as the user's message. With no step allowed the run is
    /// over at once; otherwise the provider is asked first.
    pub fn start(system_prompt: Option<String>, task: &str, max_steps: usize) -> (r: (
        LoopRun,
        LoopAction,
    ))
        ensures
            r.0.wf(),
            r.0.conversation() == system_part(system_prompt) + seq![
                MessageModel { role: "user"@, content: task@ },
            ],
            r.0.max_steps == max_steps,
            r.0.step == 1,
            r.0.tool_calls_executed == 0,
            max_steps == 0 ==> r.0.finished && r.1 == LoopAction::Finish(
                Err::<AgentOutput, LoopError>(LoopError::MaxSteps),
            ),
            max_steps > 0 ==> !r.0.finished && r.0.awaits_completion() && r.1 == LoopAction::Complete,
    {
        let ghost sys: Seq<MessageModel> = system_part(system_prompt);
        let mut messages: Vec<Message> = Vec::new();
        match &system_prompt {
            Some(p) => {
                messages.push(Message { role: "system".to_string(), content: p.clone() });
            },
            None => {},
        }
        messages.push(Message::new("user", task));
        proof {
            lemma_other_roles();
            assert(models(messages@) =~= sys + seq![MessageModel { role: "user"@, content: task@ }]);
            let c = models(messages@);
            assert(c.last().role != tool_role());
            if c.len() == 2 {
                assert(c.drop_last().last().role != tool_role());
                assert(c.drop_last().drop_last().len() == 0);
                assert(count_role(c.drop_last().drop_last(), tool_role()) == 0);
                assert(count_role(c.drop_last(), tool_role()) == 0);
            } else {
                assert(c.drop_last().len() == 0);
                assert(count_role(c.drop_last(), tool_role()) == 0);
            }
            assert(count_role(c, tool_role()) == 0);
        }
        let finished = max_steps == 0;
        let run = LoopRun {
            messages,
            max_steps,
            step: 1,
            tool_calls_executed: 0,
            pending: Vec::new(),
            next_call: 0,
            finished,
        };
        if finished {
            (run, LoopAction::Finish(Err(LoopError::MaxSteps)))
        } else {
            (run, LoopAction::Complete)
        }
    }

    /// Takes the provider's reply. A failure ends the run with that error; a
    /// completion without tool calls ends it with the completion's text as the
    /// answer; one with tool calls adds the assistant's text to the
    /// conversation and asks for the first call.
    pub fn on_completion(&mut self, reply: Result<ProviderResponse, LoopError>) -> (a: LoopAction)
        requires
            old(self).wf(),
            old(self).awaits_completion(),
        ensures
            final(self).wf(),
            final(self).max_steps == old(self).max_steps,
            final(self).step == old(self).step,
            final(self).tool_calls_executed == old(self).tool_calls_executed,
            a matches LoopAction::Finish(Ok(out)) ==> 1 <= out.steps <= old(self).max_steps
                && out.tool_calls_executed == count_role(final(self).conversation(), tool_role()),
            match reply {
                Err(e) => final(self).finished && final(self).conversation() == old(
                    self,
                ).conversation() && a == LoopAction::Finish(Err::<AgentOutput, LoopError>(e)),
                Ok(resp) => if resp.tool_calls@.len() == 0 {
                    &&& final(self).finished
                    &&& final(self).conversation() == old(self).conversation()
                    &&& a matches LoopAction::Finish(Ok(out))
                    &&& out.content == resp.content
                    &&& out.steps == old(self).step
                    &&& out.tool_calls_executed == old(self).tool_calls_executed
                } else {
                    &&& !final(self).finished
                    &&& final(self).conversation() == old(self).conversation().push(
                        MessageModel { role: "assistant"@, content: resp.content@ },
                    )
                    &&& final(self).pending@ == resp.tool_calls@
                    &&& final(self).next_call == 0
                    &&& a == LoopAction::CallTool(resp.tool_calls@[0])
                },
            },
    {
        match reply {
            Err(e) => {
                self.finished = true;
                LoopAction::Finish(Err(e))
            },
            Ok(resp) => {
                if resp.tool_calls.len() == 0 {
                    self.finished = true;
                    LoopAction::Finish(
                        Ok(
                            AgentOutput {
                                content: resp.content,
                                steps: self.step,
                                tool_calls_executed: self.tool_calls_executed,
                            },
                        ),
                    )
                } else {
                    let ghost before = self.conversation();
                    let assistant = Message { role: "assistant".to_string(), content: resp.content };
                    self.messages.push(assistant);
                    proof {
                        lemma_other_roles();
                        assert(self.conversation() =~= before.push(
                            MessageModel { role: "assistant"@, content: resp.content@ },
                        ));
                        assert(self.conversation().drop_last() =~= before);
                        assert(self.conversation().last().role != tool_role());
                    }
                    let first = resp.tool_calls[0].copy();
                    self.pending = resp.tool_calls;
                    self.next_call = 0;
                    LoopAction::CallTool(first)
                }
            },
        }
    }

    /// Takes the result of the pending tool call (its JSON text, or the text of
    /// its error). An error ends the run. A result is added to the conversation
    /// as a tool message and counted; then the next call of the completion is
    /// asked for, or, once all ran, the next completion, unless the last step
    /// was used, which ends the run with `MaxSteps`.
    pub fn on_tool_result(&mut self, result: Result<String, String>) -> (a: LoopAction)
        requires
            old(self).wf(),
            old(self).awaits_tool(),
        ensures
            final(self).wf(),
            final(self).max_steps == old(self).max_steps,
            match result {
                Err(e) => final(self).finished && final(self).conversation() == old(
                    self,
                ).conversation() && final(self).tool_calls_executed == old(
                    self,
                ).tool_calls_executed && a == LoopAction::Finish(
                    Err::<AgentOutput, LoopError>(LoopError::Tool(e)),
                ),
                Ok(text) => {
                    &&& final(self).conversation() == old(self).conversation().push(
                        MessageModel { role: "tool"@, content: text@ },
                    )
                    &&& final(self).tool_calls_executed == old(self).tool_calls_executed + 1
                    &&& if old(self).next_call + 1 < old(self).pending@.len() {
                        &&& !final(self).finished
                        &&& final(self).step == old(self).step
                        &&& final(self).pending@ == old(self).pending@
                        &&& final(self).next_call == old(self).next_call + 1
                        &&& a == LoopAction::CallTool(old(self).pending@[old(self).next_call + 1])
                    } else if old(self).step == old(self).max_steps {
                        &&& final(self).finished
                        &&& final(self).step == old(self).step
                        &&& a == LoopAction::Finish(Err::<AgentOutput, LoopError>(LoopError::MaxSteps))
                    } else {
                        &&& !final(self).finished
                        &&& final(self).awaits_completion()
                        &&& final(self).step == old(self).step + 1
                        &&& a == LoopAction::Complete
                    }
                },
            },
    {
        match result {
            Err(e) => {
                self.finished = true;
                LoopAction::Finish(Err(LoopError::Tool(e)))
            },
            Ok(text) => {
                let ghost before = self.conversation();
                let plen = self.pending.len();
                self.messages.push(Message { role: "tool".to_string(), content: text });
                let n = self.messages.len();
                proof {
                    reveal_strlit("tool");
                    assert(self.conversation() =~= before.push(
                        MessageModel { role: "tool"@, content: text@ },
                    ));
                    assert(self.conversation().drop_last() =~= before);
                    lemma_count_role_bound(self.conversation(), tool_role());
                }
                self.tool_calls_executed = self.tool_calls_executed + 1;
                let next = self.next_call + 1;
                if next < self.pending.len() {
                    self.next_call = next;
                    LoopAction::CallTool(self.pending[next].copy())
                } else if self.step == self.max_steps {
                    self.finished = true;
                    self.pending = Vec::new();
                    self.next_call = 0;
                    LoopAction::Finish(Err(LoopError::MaxSteps))
                } else {
                    self.step = self.step + 1;
                    self.pending = Vec::new();
                    self.next_call = 0;
                    LoopAction::Complete
                }
            },
        }
    }
}

/// One line of the skills list: `- name: description`.
pub open spec fn skill_line(s: SkillModel) -> Seq<char> {
    "- "@ + s.name + ": "@ + s.description
}

/// The lines of the skills joined by line breaks.
pub open spec fn skill_lines(skills: Seq<SkillModel>) -> Seq<char>
    decreases skills.len(),
{
    if skills.len() == 0 {
        Seq::empty()
    } else if skills.len() == 1 {
        skill_line(skills[0])
    } else {
        skill_lines(skills.drop_last()) + "\n"@ + skill_line(skills.last())
    }
}

/// The system prompt that lists the available skills.
pub open spec fn system_prompt_text(skills: Seq<SkillModel>) -> Seq<char> {
    "You are a helpful assistant. You have access to the following skills:\n"@ + skill_lines(
        skills,
    ) + "\n"@
}

/// The system prompt that lists the skills, one per line, in order.
pub fn system_prompt(skills: &Vec<Skill>) -> (r: String)
    ensures
        r@ == system_prompt_text(skill_models(skills@)),
{
    let ghost sm = skill_models(skills@);
    let mut lines = String::new();
    let mut i: usize = 0;
    proof {
        assert(sm.take(0) =~= Seq::<SkillModel>::empty());
    }
    while i < skills.len()
        invariant
            i <= skills@.len(),
            sm == skill_models(skills@),
            lines@ == skill_lines(sm.take(i as int)),
        decreases skills@.len() - i,
    {
        let ghost pre = sm.take(i + 1);
        proof {
            assert(pre.drop_last() =~= sm.take(i as int));
            assert(pre.last() == skills@[i as int]@);
        }
        if i > 0 {
            lines.append("\n");
        }
        lines.append("- ");
        lines.append(skills[i].name.as_str());
        lines.append(": ");
        lines.append(skills[i].description.as_str());
        proof {
            if i == 0 {
                assert(pre.len() == 1);
                assert(pre[0] == skills@[0]@);
            }
            assert(lines@ =~= skill_lines(pre));
        }
        i = i + 1;
    }
    proof {
        assert(sm.take(skills@.len() as int) =~= sm);
    }
    let mut r = "You are a helpful assistant. You have access to the following skills:\n".to_string();
    r.append(lines.as_str());
    r.append("\n");
    r
}

} // verus!
