use fin::classifier::{Classifier, Event};
use fin::tags::{Channel, ParseState};

fn pairs(events: &[Event]) -> Vec<(Channel, String)> {
    events.iter().map(|e| (e.channel, e.text.clone())).collect()
}

fn feed_all(c: &mut Classifier, fragments: &[&str]) -> Vec<(Channel, String)> {
    let mut out = Vec::new();
    for f in fragments {
        out.extend(pairs(&c.feed(f)));
    }
    out
}

#[test]
fn idle_text_without_tags_is_dropped() {
    let mut c = Classifier::new();
    let events = c.feed("hello world");
    assert!(events.is_empty());
    assert_eq!(c.state(), ParseState::Idle);
    assert_eq!(c.pending(), "");
    assert!(c.finalize().is_empty());
}

#[test]
fn think_and_answer_are_demultiplexed() {
    let mut c = Classifier::new();
    let events = pairs(&c.feed("<think>abc</think><answer>def</answer>"));
    assert_eq!(
        events,
        vec![(Channel::Thought, "abc".to_string()), (Channel::Answer, "def".to_string())]
    );
    assert_eq!(c.state(), ParseState::Idle);
    assert_eq!(c.pending(), "");
}

#[test]
fn tag_split_across_fragments_matches_one_fragment() {
    let mut split = Classifier::new();
    let first = split.feed("<thi");
    assert!(first.is_empty());
    assert_eq!(split.pending(), "<thi");
    let mut got = pairs(&first);
    got.extend(pairs(&split.feed("nk>abc</think>")));

    let mut whole = Classifier::new();
    let expected = pairs(&whole.feed("<think>abc</think>"));
    assert_eq!(got, expected);
    assert_eq!(got, vec![(Channel::Thought, "abc".to_string())]);
    assert_eq!(split.state(), whole.state());
}

#[test]
fn unknown_tag_is_held_then_flushed_in_answer_state() {
    let mut c = Classifier::new();
    assert!(c.feed("<answer>").is_empty());
    assert_eq!(c.state(), ParseState::Answering);
    // The run from the last `<` is shorter than the longest tag, so it waits.
    assert!(c.feed("<foo>bar").is_empty());
    assert_eq!(c.state(), ParseState::Answering);
    assert_eq!(c.pending(), "<foo>bar");
    let flushed = pairs(&c.finalize());
    assert_eq!(flushed, vec![(Channel::Answer, "<foo>bar".to_string())]);
    assert_eq!(c.state(), ParseState::Answering);
}

#[test]
fn unknown_tag_passes_through_once_resolved() {
    let mut c = Classifier::new();
    let events = feed_all(&mut c, &["<answer>", "<foo>bar</answer>"]);
    assert_eq!(events, vec![(Channel::Answer, "<foo>bar".to_string())]);
    assert_eq!(c.state(), ParseState::Idle);
}

#[test]
fn finalize_flushes_open_answer() {
    let mut c = Classifier::new();
    let mut events = pairs(&c.feed("<answer>partial"));
    events.extend(pairs(&c.finalize()));
    assert_eq!(events, vec![(Channel::Answer, "partial".to_string())]);
    assert_eq!(c.pending(), "");
}

#[test]
fn finalize_emits_held_partial_tag() {
    let mut c = Classifier::new();
    let events = pairs(&c.feed("<think>so <ans"));
    assert_eq!(events, vec![(Channel::Thought, "so ".to_string())]);
    assert_eq!(c.pending(), "<ans");
    assert_eq!(pairs(&c.finalize()), vec![(Channel::Thought, "<ans".to_string())]);
}

#[test]
fn finalize_in_idle_drops_pending() {
    let mut c = Classifier::new();
    assert!(c.feed("x <thi").is_empty());
    assert_eq!(c.pending(), "<thi");
    assert!(c.finalize().is_empty());
    assert_eq!(c.pending(), "");
}

#[test]
fn end_marker_returns_to_idle() {
    let mut c = Classifier::new();
    let events = pairs(&c.feed("<answer>yes<|im_end|>trailing"));
    assert_eq!(events, vec![(Channel::Answer, "yes".to_string())]);
    assert_eq!(c.state(), ParseState::Idle);
    assert_eq!(c.pending(), "");
}

#[test]
fn text_before_first_tag_is_dropped() {
    let mut c = Classifier::new();
    let events = pairs(&c.feed("preamble<think>t</think>"));
    assert_eq!(events, vec![(Channel::Thought, "t".to_string())]);
}

#[test]
fn streamed_tokens_emit_incrementally() {
    let mut c = Classifier::new();
    let events = feed_all(&mut c, &["<think>", "a", "b", "</", "think>", "<answer>", "c"]);
    assert_eq!(
        events,
        vec![
            (Channel::Thought, "a".to_string()),
            (Channel::Thought, "b".to_string()),
            (Channel::Answer, "c".to_string()),
        ]
    );
}

#[test]
fn bracket_run_that_cannot_be_a_tag_is_emitted() {
    let mut c = Classifier::new();
    assert!(c.feed("<think>").is_empty());
    // Ten characters from the `<`: too long to become a tag, so all of it goes
    // out at once and nothing stays pending.
    let events = pairs(&c.feed("<abcdefghi"));
    assert_eq!(events, vec![(Channel::Thought, "<abcdefghi".to_string())]);
    assert_eq!(c.pending(), "");
    assert!(c.feed("</think>").is_empty());
    assert_eq!(c.state(), ParseState::Idle);
}

#[test]
fn comparison_in_answer_is_not_held_back() {
    let mut c = Classifier::new();
    let events = feed_all(&mut c, &["<answer>a < b", " and b < c holds now"]);
    assert_eq!(
        events,
        vec![
            (Channel::Answer, "a ".to_string()),
            (Channel::Answer, "< b and b < c holds now".to_string()),
        ]
    );
    assert_eq!(c.pending(), "");
}

#[test]
fn multibyte_text_is_kept_whole() {
    let mut c = Classifier::new();
    let events = pairs(&c.feed("<answer>caf\u{e9} \u{1F600}</answer>"));
    assert_eq!(events, vec![(Channel::Answer, "caf\u{e9} \u{1F600}".to_string())]);
}
