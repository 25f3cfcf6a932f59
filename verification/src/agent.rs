//! The decisions of the tool-using chat agent, one round at a time.
use vstd::prelude::*;
use vstd::string::*;
use crate::ai::{is_transient_error, is_transient_text};

verus! {

broadcast use vstd::string::group_string_axioms;

/// The most tool-decision rounds one chat request may take.
pub const MAX_AGENT_ROUNDS: usize = 5;

/// How long to wait before retrying a failed request, in milliseconds.
pub const RETRY_BACKOFF_MILLIS: u64 = 800;

/// The text sent when the agent ran out of rounds.
pub open spec fn too_many_steps_text() -> Seq<char> {
    "抱歉，操作步骤过多，请尝试更具体的描述。"@
}

/// A message for the chat frontend.
pub enum AgentNotice {
    /// A piece of reply text (`ai-chat-chunk`).
    Chunk(String),
    /// The reply is complete (`ai-chat-done`).
    Done,
    /// The chat failed (`ai-error`).
    Error(String),
}

/// A chat notice as the specification sees it.
pub ghost enum AgentNoticeView {
    Chunk(Seq<char>),
    Done,
    Error(Seq<char>),
}

impl View for AgentNotice {
    type V = AgentNoticeView;

    open spec fn view(&self) -> AgentNoticeView {
        match self {
            AgentNotice::Chunk(c) => AgentNoticeView::Chunk(c@),
            AgentNotice::Done => AgentNoticeView::Done,
            AgentNotice::Error(e) => AgentNoticeView::Error(e@),
        }
    }
}

impl AgentNotice {
    /// The name of the frontend event for this notice.
    pub fn name(&self) -> (r: String)
        ensures
            r@ == (match self@ {
                AgentNoticeView::Chunk(_) => "ai-chat-chunk"@,
                AgentNoticeView::Done => "ai-chat-done"@,
                AgentNoticeView::Error(_) => "ai-error"@,
            }),
    {
        match self {
            AgentNotice::Chunk(_) => "ai-chat-chunk".to_string(),
            AgentNotice::Done => "ai-chat-done".to_string(),
            AgentNotice::Error(_) => "ai-error".to_string(),
        }
    }
}

/// What the agent asks its driver to do next.
pub enum AgentAction {
    /// Send the tool-decision request of the current round.
    Request,
    /// Wait this many milliseconds, watching for a stop request, then report back.
    Backoff(u64),
    /// Run the tool calls of the reply, add their results, and begin the next round.
    RunTools,
    /// Add the reply to the conversation and stream the final answer.
    StreamReply,
    /// Send these notices to the frontend and stop.
    Finish(Vec<AgentNotice>),
}

/// An agent action as the specification sees it.
pub ghost enum AgentActionView {
    Request,
    Backoff(u64),
    RunTools,
    StreamReply,
    Finish(Seq<AgentNoticeView>),
}

impl View for AgentAction {
    type V = AgentActionView;

    open spec fn view(&self) -> AgentActionView {
        match self {
            AgentAction::Request => AgentActionView::Request,
            AgentAction::Backoff(ms) => AgentActionView::Backoff(*ms),
            AgentAction::RunTools => AgentActionView::RunTools,
            AgentAction::StreamReply => AgentActionView::StreamReply,
            AgentAction::Finish(n) => AgentActionView::Finish(n@.map_values(|x: AgentNotice| x@)),
        }
    }
}

/// How a tool-decision request ended.
pub enum RoundOutcome {
    /// The user asked to stop while the request was in flight.
    Cancelled,
    /// The model answered; `tool_calls` is the number of tool calls in its message.
    Reply { tool_calls: usize },
    /// The request failed with this message.
    Failed(String),
}

/// The agent's progress: the round it is in and whether that round's request was retried.
pub ghost struct AgentState {
    pub round: nat,
    pub retried: bool,
}

/// Beginning a round: after `MAX_AGENT_ROUNDS` rounds the agent apologizes and stops; a stop
/// request ends the chat; otherwise the round's request is sent.
pub open spec fn begin_round_spec(s: AgentState, cancel_requested: bool) -> (
    AgentState,
    AgentActionView,
) {
    if s.round >= MAX_AGENT_ROUNDS {
        (
            s,
            AgentActionView::Finish(
                seq![AgentNoticeView::Chunk(too_many_steps_text()), AgentNoticeView::Done],
            ),
        )
    } else if cancel_requested {
        (s, AgentActionView::Finish(seq![AgentNoticeView::Done]))
    } else {
        (AgentState { round: s.round, retried: false }, AgentActionView::Request)
    }
}

/// Handling the end of a request: a stop ends the chat; a reply with tool calls runs them and
/// moves to the next round; a reply without tool calls is streamed as the answer; a failure is
/// retried once when it is transient, and otherwise ends the chat with `AI 调用失败: `.
pub open spec fn after_response_spec(s: AgentState, o: RoundOutcome) -> (
    AgentState,
    AgentActionView,
) {
    match o {
        RoundOutcome::Cancelled => (s, AgentActionView::Finish(seq![AgentNoticeView::Done])),
        RoundOutcome::Reply { tool_calls } => if tool_calls > 0 {
            (
                AgentState {
                    round: if s.round < MAX_AGENT_ROUNDS {
                        s.round + 1
                    } else {
                        s.round
                    },
                    retried: s.retried,
                },
                AgentActionView::RunTools,
            )
        } else {
            (s, AgentActionView::StreamReply)
        },
        RoundOutcome::Failed(e) => if s.retried || !is_transient_text(e@) {
            (
                s,
                AgentActionView::Finish(
                    seq![AgentNoticeView::Error("AI 调用失败: "@ + e@)],
                ),
            )
        } else {
            (
                AgentState { round: s.round, retried: true },
                AgentActionView::Backoff(RETRY_BACKOFF_MILLIS),
            )
        },
    }
}

/// Handling the end of the wait before a retry: a stop ends the chat, else the request is
/// sent again.
pub open spec fn after_backoff_spec(s: AgentState, cancelled: bool) -> (
    AgentState,
    AgentActionView,
) {
    if cancelled {
        (s, AgentActionView::Finish(seq![AgentNoticeView::Done]))
    } else {
        (s, AgentActionView::Request)
    }
}

/// The decision state of one agent chat.
pub struct AgentLoop {
    round: usize,
    retried: bool,
}

impl AgentLoop {
    /// The agent's progress.
    pub closed spec fn state(&self) -> AgentState {
        AgentState { round: self.round as nat, retried: self.retried }
    }

    /// The round counter never passes the limit.
    pub closed spec fn wf(&self) -> bool {
        self.round <= MAX_AGENT_ROUNDS
    }

    /// An agent about to begin its first round.
    pub fn new() -> (a: AgentLoop)
        ensures
            a.wf(),
            a.state() == (AgentState { round: 0, retried: false }),
    {
        AgentLoop { round: 0, retried: false }
    }

    /// Begins a round; `cancel_requested` tells whether the user has asked to stop.
    pub fn begin_round(&mut self, cancel_requested: bool) -> (action: AgentAction)
        requires
            old(self).wf(),
        ensures
            final(self).wf(),
            (final(self).state(), action@) == begin_round_spec(old(self).state(), cancel_requested),
    {
        if self.round >= MAX_AGENT_ROUNDS {
            let mut notices: Vec<AgentNotice> = Vec::new();
            notices.push(AgentNotice::Chunk("抱歉，操作步骤过多，请尝试更具体的描述。".to_string()));
            notices.push(AgentNotice::Done);
            let a = AgentAction::Finish(notices);
            assert(a@ == AgentActionView::Finish(
                seq![AgentNoticeView::Chunk(too_many_steps_text()), AgentNoticeView::Done],
            )) by {
                assert(notices@.map_values(|x: AgentNotice| x@) =~= seq![
                    AgentNoticeView::Chunk(too_many_steps_text()),
                    AgentNoticeView::Done,
                ]);
            }
            a
        } else if cancel_requested {
            done_action()
        } else {
            self.retried = false;
            AgentAction::Request
        }
    }

    /// Handles how the round's request ended.
    pub fn after_response(&mut self, outcome: RoundOutcome) -> (action: AgentAction)
        requires
            old(self).wf(),
        ensures
            final(self).wf(),
            (final(self).state(), action@) == after_response_spec(old(self).state(), outcome),
    {
        match outcome {
            RoundOutcome::Cancelled => done_action(),
            RoundOutcome::Reply { tool_calls } => {
                if tool_calls > 0 {
                    if self.round < MAX_AGENT_ROUNDS {
                        self.round = self.round + 1;
                    }
                    AgentAction::RunTools
                } else {
                    AgentAction::StreamReply
                }
            },
            RoundOutcome::Failed(e) => {
                if self.retried || !is_transient_error(e.as_str()) {
                    let mut msg = "AI 调用失败: ".to_string();
                    msg.append(e.as_str());
                    let ghost m = msg@;
                    let mut notices: Vec<AgentNotice> = Vec::new();
                    notices.push(AgentNotice::Error(msg));
                    assert(notices@.map_values(|x: AgentNotice| x@) =~= seq![
                        AgentNoticeView::Error(m),
                    ]);
                    AgentAction::Finish(notices)
                } else {
                    self.retried = true;
                    AgentAction::Backoff(RETRY_BACKOFF_MILLIS)
                }
            },
        }
    }

    /// Handles the end of the wait before a retry; `cancelled` tells whether the user asked to
    /// stop meanwhile.
    pub fn after_backoff(&mut self, cancelled: bool) -> (action: AgentAction)
        requires
            old(self).wf(),
        ensures
            final(self).wf(),
            (final(self).state(), action@) == after_backoff_spec(old(self).state(), cancelled),
    {
        if cancelled {
            done_action()
        } else {
            AgentAction::Request
        }
    }
}


/// A stop request always ends the chat with a single `Done`, whether it is seen between
/// rounds, during a request or during the wait before a retry.
pub proof fn lemma_stop_ends_with_done(s: AgentState)
    requires
        s.round < MAX_AGENT_ROUNDS,
    ensures
        begin_round_spec(s, true).1 == AgentActionView::Finish(seq![AgentNoticeView::Done]),
        after_response_spec(s, RoundOutcome::Cancelled).1 == AgentActionView::Finish(
            seq![AgentNoticeView::Done],
        ),
        after_backoff_spec(s, true).1 == AgentActionView::Finish(seq![AgentNoticeView::Done]),
{
}

/// A round's request is retried at most once: once a failure was retried, the next failure of
/// that round ends the chat with an error, whatever it is.
pub proof fn lemma_retry_at_most_once(s: AgentState, first: RoundOutcome, second: RoundOutcome)
    requires
        first is Failed,
        second is Failed,
        after_response_spec(s, first).1 is Backoff,
    ensures
        ({
            let s2 = after_backoff_spec(after_response_spec(s, first).0, false).0;
            after_response_spec(s2, second).1 matches AgentActionView::Finish(n) && n.len() == 1
                && n[0] is Error
        }),
{
}

/// The agent never takes more than `MAX_AGENT_ROUNDS` rounds: at the limit it apologizes and
/// stops instead of sending another request.
pub proof fn lemma_round_limit(s: AgentState, cancel_requested: bool)
    requires
        s.round >= MAX_AGENT_ROUNDS,
    ensures
        begin_round_spec(s, cancel_requested).1 == AgentActionView::Finish(
            seq![AgentNoticeView::Chunk(too_many_steps_text()), AgentNoticeView::Done],
        ),
{
}

/// Each reply with tool calls moves the agent one round on, so that after
/// `MAX_AGENT_ROUNDS` tool rounds the next round is refused.
pub proof fn lemma_tool_rounds_advance(s: AgentState, n: usize)
    requires
        s.round < MAX_AGENT_ROUNDS,
        n > 0,
    ensures
        after_response_spec(s, RoundOutcome::Reply { tool_calls: n }).0.round == s.round + 1,
{
}

fn done_action() -> (a: AgentAction)
    ensures
        a@ == AgentActionView::Finish(seq![AgentNoticeView::Done]),
{
    let mut notices: Vec<AgentNotice> = Vec::new();
    notices.push(AgentNotice::Done);
    assert(notices@.map_values(|x: AgentNotice| x@) =~= seq![AgentNoticeView::Done]);
    AgentAction::Finish(notices)
}

} // verus!
