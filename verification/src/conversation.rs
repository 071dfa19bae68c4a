//! What a model and its caller have said to each other, and the tools on offer.

use crate::json::{Json, JsonView};
use vstd::prelude::*;

verus! {

#[derive(Debug)]
pub struct Message {
    pub role: String,
    pub content: Json,
}

/// What a [`Message`] says.
pub struct MessageView {
    pub role: Seq<char>,
    pub content: JsonView,
}

impl View for Message {
    type V = MessageView;

    open spec fn view(&self) -> MessageView {
        MessageView { role: self.role@, content: self.content@ }
    }
}

impl Message {
    pub fn new(role: &str, content: Json) -> (r: Message)
        ensures
            r@ == (MessageView { role: role@, content: content@ }),
    {
        Message { role: role.to_owned(), content }
    }

    pub fn copy(&self) -> (r: Message)
        ensures
            r@ == self@,
    {
        Message { role: self.role.clone(), content: self.content.copy() }
    }
}

/// What a list of messages says.
pub open spec fn message_views(list: Seq<Message>) -> Seq<MessageView> {
    list.map_values(|m: Message| m@)
}

/// A message added to a list adds what it says.
pub proof fn lemma_message_push(list: Seq<Message>, m: Message)
    ensures
        message_views(list.push(m)) == message_views(list).push(m@),
{
    assert(message_views(list.push(m)) =~= message_views(list).push(m@));
}

/// Conversation state, carried across steps, suspensions and sessions.
#[derive(Debug)]
pub struct Conversation {
    pub messages: Vec<Message>,
}

impl View for Conversation {
    type V = Seq<MessageView>;

    open spec fn view(&self) -> Seq<MessageView> {
        message_views(self.messages@)
    }
}

impl Default for Conversation {
    fn default() -> (r: Self)
        ensures
            r@ == Seq::<MessageView>::empty(),
    {
        let r = Conversation { messages: Vec::new() };
        assert(r@ =~= Seq::<MessageView>::empty());
        r
    }
}

impl Conversation {
    pub fn copy(&self) -> (r: Conversation)
        ensures
            r@ == self@,
    {
        let mut messages: Vec<Message> = Vec::new();
        let mut i: usize = 0;
        while i < self.messages.len()
            invariant
                i <= self.messages@.len(),
                messages@.len() == i,
                forall|k: int| 0 <= k < i ==> (#[trigger] messages@[k])@ == self.messages@[k]@,
            decreases self.messages.len() - i,
        {
            messages.push(self.messages[i].copy());
            i = i + 1;
        }
        assert(message_views(messages@) =~= message_views(self.messages@));
        Conversation { messages }
    }

    /// Adds a message at the end.
    pub fn say(&mut self, role: &str, content: Json)
        ensures
            final(self)@ == old(self)@.push(MessageView { role: role@, content: content@ }),
    {
        let m = Message::new(role, content);
        proof {
            lemma_message_push(self.messages@, m);
        }
        self.messages.push(m);
    }
}

#[derive(Debug)]
pub struct ToolSpec {
    pub name: String,
    pub description: String,
    pub input_schema: Json,
}

/// What a [`ToolSpec`] says.
pub struct ToolSpecView {
    pub name: Seq<char>,
    pub description: Seq<char>,
    pub input_schema: JsonView,
}

impl View for ToolSpec {
    type V = ToolSpecView;

    open spec fn view(&self) -> ToolSpecView {
        ToolSpecView { name: self.name@, description: self.description@, input_schema: self.input_schema@ }
    }
}

/// What a list of tools says.
pub open spec fn tool_views(list: Seq<ToolSpec>) -> Seq<ToolSpecView> {
    list.map_values(|t: ToolSpec| t@)
}

/// A tool added to a list adds what it says.
pub proof fn lemma_tool_push(list: Seq<ToolSpec>, t: ToolSpec)
    ensures
        tool_views(list.push(t)) == tool_views(list).push(t@),
{
    assert(tool_views(list.push(t)) =~= tool_views(list).push(t@));
}

} // verus!
