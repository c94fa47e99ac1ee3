use fin::chat::{format_message, format_messages, Message};

fn msg(role: &str, content: &str) -> Message {
    Message { role: role.to_string(), content: content.to_string() }
}

#[test]
fn one_message_is_framed() {
    assert_eq!(
        format_message(&msg("user", "Hi there")),
        "<|im_start|>user\nHi there\n<|im_end|>"
    );
}

#[test]
fn messages_are_joined_and_open_assistant_turn() {
    let prompt = format_messages(vec![msg("system", "Be kind."), msg("user", "Hello?")]);
    assert_eq!(
        prompt,
        "<|im_start|>system\nBe kind.\n<|im_end|>\n<|im_start|>user\nHello?\n<|im_end|>\n<|im_start|>assistant\n"
    );
}

#[test]
fn no_messages_only_open_assistant_turn() {
    assert_eq!(format_messages(Vec::new()), "\n<|im_start|>assistant\n");
}
