//! Ordered conversation history of one chat session: append-only system,
//! user and assistant messages, a soft or hard reset, and the decision taken
//! on a completion provider's response.

use vstd::prelude::*;

use crate::errors::RagError;
use crate::text::str_eq;

verus! {

/// The lower-cased form of a character sequence, as `str::to_lowercase`
/// computes it: a function of the characters alone.
pub uninterp spec fn lower_of(s: Seq<char>) -> Seq<char>;

/// Relies on str::to_lowercase: returns the lower-cased text, a function of
/// the input characters alone.
#[verifier::external_body]
fn lowercase(s: &str) -> (r: String)
    ensures
        r@ == lower_of(s@),
{
    s.to_lowercase()
}

/// What one line of interactive input asks for.
#[derive(Clone, Copy, Debug, PartialEq, Eq, Structural)]
pub enum InputKind {
    Exit,
    Reset,
    Query,
}

/// The command a line means, judged on its lower-cased form.
pub open spec fn classify(lower: Seq<char>) -> InputKind {
    if lower == "exit"@ || lower == "quit"@ || lower == "bye"@ {
        InputKind::Exit
    } else if lower == "reset"@ {
        InputKind::Reset
    } else {
        InputKind::Query
    }
}

/// Classify one line of interactive input: the exit words end the session, a
/// reset request clears the history, anything else is a query. Matching is
/// case-insensitive.
pub fn classify_input(line: &str) -> (r: InputKind)
    ensures
        r == classify(lower_of(line@)),
{
    let lowered = lowercase(line);
    if str_eq(lowered.as_str(), "exit") || str_eq(lowered.as_str(), "quit") || str_eq(
        lowered.as_str(),
        "bye",
    ) {
        InputKind::Exit
    } else if str_eq(lowered.as_str(), "reset") {
        InputKind::Reset
    } else {
        InputKind::Query
    }
}

/// The system message injected before a completion request when retrieval
/// found context: a fixed instructional preamble followed by the context
/// block.
pub fn context_preamble(context: &str) -> (r: String)
    ensures
        r@
            == "Here is some relevant context to help answer the question. Use this information if it's helpful for answering the question:\n"@
            + context@,
{
    let mut r = String::new();
    r.append(
        "Here is some relevant context to help answer the question. Use this information if it's helpful for answering the question:\n",
    );
    r.append(context);
    r
}

/// The author of a conversation message.
#[derive(Clone, Copy, Debug, PartialEq, Eq, Structural)]
pub enum Role {
    System,
    User,
    Assistant,
}

/// One message of the conversation history.
pub struct ChatMessage {
    pub role: Role,
    pub content: String,
}

/// The mathematical value of a message: its role and the characters of its
/// content.
pub struct MsgView {
    pub role: Role,
    pub content: Seq<char>,
}

impl View for ChatMessage {
    type V = MsgView;

    open spec fn view(&self) -> MsgView {
        MsgView { role: self.role, content: self.content@ }
    }
}

/// The messages of `h` whose role is `System`, in order.
pub open spec fn system_messages_of(h: Seq<MsgView>) -> Seq<MsgView>
    decreases h.len(),
{
    if h.len() == 0 {
        Seq::empty()
    } else if h.last().role == Role::System {
        system_messages_of(h.drop_last()).push(h.last())
    } else {
        system_messages_of(h.drop_last())
    }
}

/// The ordered message history of one chat session. Append-only, except for
/// an explicit reset; it grows without bound across a session.
pub struct Conversation {
    pub history: Vec<ChatMessage>,
}

/// The views of a message sequence.
pub open spec fn message_views(h: Seq<ChatMessage>) -> Seq<MsgView> {
    h.map_values(|m: ChatMessage| m@)
}

impl View for Conversation {
    type V = Seq<MsgView>;

    open spec fn view(&self) -> Seq<MsgView> {
        message_views(self.history@)
    }
}

impl Conversation {
    /// An empty history.
    pub fn new() -> (r: Conversation)
        ensures
            r@ == Seq::<MsgView>::empty(),
    {
        let r = Conversation { history: Vec::new() };
        proof {
            assert(r@ =~= Seq::<MsgView>::empty());
        }
        r
    }

    /// Append a message with the given role.
    pub fn add_message(&mut self, role: Role, content: &str)
        ensures
            final(self)@ == old(self)@.push(MsgView { role, content: content@ }),
    {
        self.history.push(ChatMessage { role, content: content.to_owned() });
        proof {
            assert(self@ =~= old(self)@.push(MsgView { role, content: content@ }));
        }
    }

    /// Append a system message.
    pub fn add_system_message(&mut self, content: &str)
        ensures
            final(self)@ == old(self)@.push(MsgView { role: Role::System, content: content@ }),
    {
        self.add_message(Role::System, content);
    }

    /// Append a user message.
    pub fn add_user_message(&mut self, content: &str)
        ensures
            final(self)@ == old(self)@.push(MsgView { role: Role::User, content: content@ }),
    {
        self.add_message(Role::User, content);
    }

    /// Append an assistant message.
    pub fn add_assistant_message(&mut self, content: &str)
        ensures
            final(self)@ == old(self)@.push(MsgView { role: Role::Assistant, content: content@ }),
    {
        self.add_message(Role::Assistant, content);
    }

    /// Reset the history. A soft reset (`keep_system_messages`) keeps exactly
    /// the system messages, in order; a hard reset clears everything.
    pub fn reset_conversation(&mut self, keep_system_messages: bool)
        ensures
            keep_system_messages ==> final(self)@ == system_messages_of(old(self)@),
            !keep_system_messages ==> final(self)@ == Seq::<MsgView>::empty(),
    {
        if !keep_system_messages {
            self.history.clear();
            proof {
                assert(self@ =~= Seq::<MsgView>::empty());
            }
            return ;
        }
        let ghost all = old(self)@;
        let mut kept: Vec<ChatMessage> = Vec::new();
        let mut i: usize = 0;
        proof {
            assert(all.take(0) =~= Seq::<MsgView>::empty());
            assert(message_views(kept@) =~= system_messages_of(all.take(0)));
        }
        while i < self.history.len()
            invariant
                i <= self.history@.len(),
                self.history@ == old(self).history@,
                all == message_views(self.history@),
                message_views(kept@) == system_messages_of(all.take(i as int)),
            decreases self.history@.len() - i,
        {
            proof {
                assert(all.take(i + 1).drop_last() =~= all.take(i as int));
                assert(all.take(i + 1).last() == all[i as int]);
            }
            let m = &self.history[i];
            if matches!(m.role, Role::System) {
                let copied = ChatMessage { role: m.role, content: m.content.clone() };
                proof {
                    assert(message_views(kept@.push(copied)) =~= message_views(kept@).push(
                        all[i as int],
                    ));
                }
                kept.push(copied);
            }
            i += 1;
        }
        proof {
            assert(all.take(all.len() as int) =~= all);
        }
        self.history = kept;
    }

    /// Decide on a completion response, given the content of each returned
    /// choice. When the first choice carries content, that content is
    /// appended to the history as an assistant message and returned; in every
    /// other case the history is left exactly as it was and a provider error
    /// is reported.
    pub fn accept_completion(&mut self, choices: Vec<Option<String>>) -> (r: Result<
        String,
        RagError,
    >)
        ensures
            match r {
                Ok(content) => {
                    &&& choices@.len() > 0
                    &&& choices@[0] is Some
                    &&& content@ == choices@[0]->0@
                    &&& final(self)@ == old(self)@.push(
                        MsgView { role: Role::Assistant, content: content@ },
                    )
                },
                Err(e) => {
                    &&& choices@.len() == 0 || choices@[0] is None
                    &&& final(self)@ == old(self)@
                    &&& e is Provider
                    &&& e.detail() == "No content in response"@
                },
            },
    {
        let mut choices = choices;
        if choices.len() > 0 {
            let first = choices.remove(0);
            if let Some(content) = first {
                self.add_assistant_message(content.as_str());
                return Ok(content);
            }
        }
        Err(RagError::Provider("No content in response".to_owned()))
    }
}

} // verus!
