use vstd::prelude::*;

verus! {

/// A colour hint for the log, as red, green, blue and opacity.
#[derive(Clone, Copy, Debug, PartialEq, Eq, Structural)]
pub struct Color {
    pub r: u8,
    pub g: u8,
    pub b: u8,
    pub a: u8,
}

/// A semantic event for the message log, with optional foreground and
/// background colour hints.
#[derive(Clone, Debug, PartialEq)]
pub enum Message {
    GameEvent(String, Option<Color>, Option<Color>),
}

/// The events of the simulation waiting to be shown, oldest first.
pub struct MessageQueue {
    messages: Vec<Message>,
}

impl View for MessageQueue {
    type V = Seq<Message>;

    closed spec fn view(&self) -> Seq<Message> {
        self.messages@
    }
}

impl MessageQueue {
    pub fn new() -> (q: MessageQueue)
        ensures
            q@.len() == 0,
    {
        MessageQueue { messages: Vec::new() }
    }

    pub fn push(&mut self, message: Message)
        ensures
            final(self)@ == old(self)@.push(message),
    {
        self.messages.push(message);
    }

    /// Hands out every waiting event, oldest first, and empties the queue.
    pub fn messages(&mut self) -> (out: Vec<Message>)
        ensures
            out@ == old(self)@,
            final(self)@.len() == 0,
    {
        let mut out: Vec<Message> = Vec::new();
        std::mem::swap(&mut out, &mut self.messages);
        out
    }
}

} // verus!
