use fin::classifier::Event;
use fin::generation::{Generation, Poll, RunStatus};
use fin::tags::Channel;

fn pairs(events: &[Event]) -> Vec<(Channel, String)> {
    events.iter().map(|e| (e.channel, e.text.clone())).collect()
}

fn token(s: &str) -> Poll {
    Poll::Token(s.to_string())
}

#[test]
fn cancellation_drops_pending_and_completes_once() {
    let mut g = Generation::new();
    let first = g.step(token("<answer>hi <an"));
    assert_eq!(pairs(&first.events), vec![(Channel::Answer, "hi ".to_string())]);
    assert!(!first.complete);

    let cancelled = g.step(Poll::Cancelled);
    assert!(cancelled.events.is_empty());
    assert!(cancelled.complete);
    assert_eq!(g.status(), RunStatus::Cancelled);

    let later = g.step(token("more</answer>"));
    assert!(later.events.is_empty());
    assert!(!later.complete);
    let end = g.step(Poll::Exhausted);
    assert!(end.events.is_empty());
    assert!(!end.complete);
    assert_eq!(g.status(), RunStatus::Cancelled);
}

#[test]
fn exhaustion_flushes_and_completes_once() {
    let mut g = Generation::new();
    let a = g.step(token("<think>why"));
    assert_eq!(pairs(&a.events), vec![(Channel::Thought, "why".to_string())]);
    let b = g.step(token("</think><answer>because <"));
    assert_eq!(pairs(&b.events), vec![(Channel::Answer, "because ".to_string())]);
    let end = g.step(Poll::Exhausted);
    assert_eq!(pairs(&end.events), vec![(Channel::Answer, "<".to_string())]);
    assert!(end.complete);
    assert_eq!(g.status(), RunStatus::Completed);
    let after = g.step(Poll::Exhausted);
    assert!(after.events.is_empty());
    assert!(!after.complete);
}

#[test]
fn tokens_are_normalized_before_classifying() {
    let mut g = Generation::new();
    let s = g.step(token("<answer>a\u{120}b\u{10A}\u{10A}c"));
    assert_eq!(pairs(&s.events), vec![(Channel::Answer, "a b\n\nc".to_string())]);
    assert_eq!(g.status(), RunStatus::Running);
}

#[test]
fn cancel_before_any_token() {
    let mut g = Generation::new();
    let s = g.step(Poll::Cancelled);
    assert!(s.events.is_empty());
    assert!(s.complete);
}
