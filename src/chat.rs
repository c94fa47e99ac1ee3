//! The chat prompt format that the model was trained on.
use vstd::prelude::*;

verus! {

/// One turn of a conversation: who speaks, and what they say.
#[derive(Debug)]
pub struct Message {
    pub role: String,
    pub content: String,
}

/// A message in the chat format: a start marker with the role, the content,
/// and an end marker, each on its own line.
pub open spec fn message_text(m: Message) -> Seq<char> {
    "<|im_start|>"@ + m.role@ + "\n"@ + m.content@ + "\n<|im_end|>"@
}

/// The formatted messages, joined by newlines.
pub open spec fn joined_text(ms: Seq<Message>) -> Seq<char>
    decreases ms.len(),
{
    if ms.len() == 0 {
        seq![]
    } else if ms.len() == 1 {
        message_text(ms[0])
    } else {
        joined_text(ms.drop_last()) + "\n"@ + message_text(ms.last())
    }
}

/// A whole prompt: the joined messages, then the opening of the assistant's
/// turn.
pub open spec fn prompt_text(ms: Seq<Message>) -> Seq<char> {
    joined_text(ms) + "\n<|im_start|>assistant\n"@
}

/// Formats one message in the chat format.
pub fn format_message(message: &Message) -> (r: String)
    ensures
        r@ == message_text(*message),
{
    let mut r = String::from_str("<|im_start|>");
    r.append(message.role.as_str());
    r.append("\n");
    r.append(message.content.as_str());
    r.append("\n<|im_end|>");
    r
}

/// Formats a conversation as a prompt that asks the assistant to reply.
pub fn format_messages(messages: Vec<Message>) -> (r: String)
    ensures
        r@ == prompt_text(messages@),
{
    let mut r = String::new();
    let mut i: usize = 0;
    assert(messages@.take(0) =~= Seq::<Message>::empty());
    while i < messages.len()
        invariant
            i <= messages.len(),
            r@ == joined_text(messages@.take(i as int)),
        decreases messages.len() - i,
    {
        let line = format_message(&messages[i]);
        let ghost before = messages@.take(i as int);
        assert(messages@.take(i + 1).drop_last() =~= before);
        if i > 0 {
            r.append("\n");
        } else {
            assert(r@ =~= Seq::<char>::empty());
        }
        r.append(line.as_str());
        i = i + 1;
    }
    assert(messages@.take(messages.len() as int) =~= messages@);
    r.append("\n<|im_start|>assistant\n");
    r
}

} // verus!
