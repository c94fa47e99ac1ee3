//! The decisions of one generation request, one polled token at a time.
//!
//! The caller runs the token source and the decoder. Before each token it
//! reports whether cancellation was asked for; otherwise it hands over the
//! decoded text, or reports that the source is exhausted. Each step says which
//! events to forward and whether to signal completion now.
use vstd::prelude::*;
use crate::classifier::{Classifier, Event, events_view, emit, resolve};
use crate::normalize::{normalize, normalized};
use crate::tags::{Channel, ParseState};

verus! {

/// Where a generation request stands.
#[derive(Clone, Copy, Debug, PartialEq, Eq, Structural)]
pub enum RunStatus {
    Running,
    Completed,
    Cancelled,
}

/// What the caller observed before handing over the next token.
#[derive(Debug)]
pub enum Poll {
    /// The cancellation flag was set.
    Cancelled,
    /// The token source produced a token, decoded to this text.
    Token(String),
    /// The token source has no more tokens.
    Exhausted,
}

/// What the caller has to do after a step: forward the events, in order, and
/// signal completion if `complete` is set.
#[derive(Debug)]
pub struct Step {
    pub events: Vec<Event>,
    pub complete: bool,
}

/// A generation request in terms of its status, parse state and pending text.
pub type RunView = (RunStatus, ParseState, Seq<char>);

/// One step of a request: its next view, the events it emits, and whether it
/// signals completion. Once the request is over nothing more happens. On
/// cancellation the pending text is dropped unresolved; on exhaustion it is
/// flushed under the current state.
pub open spec fn step_spec(g: RunView, p: Poll) -> (RunView, Seq<(Channel, Seq<char>)>, bool) {
    if g.0 != RunStatus::Running {
        (g, seq![], false)
    } else {
        match p {
            Poll::Cancelled => ((RunStatus::Cancelled, g.1, g.2), seq![], true),
            Poll::Token(t) => {
                let r = resolve(g.1, g.2 + normalized(t@));
                ((RunStatus::Running, r.0, r.2), r.1, false)
            },
            Poll::Exhausted => ((RunStatus::Completed, g.1, seq![]), emit(g.1, g.2), true),
        }
    }
}

/// The events emitted and the number of completion signals over a sequence
/// of steps.
pub open spec fn run_spec(g: RunView, ps: Seq<Poll>) -> (Seq<(Channel, Seq<char>)>, nat)
    decreases ps.len(),
{
    if ps.len() == 0 {
        (seq![], 0)
    } else {
        let s = step_spec(g, ps[0]);
        let rest = run_spec(s.0, ps.skip(1));
        (s.1 + rest.0, rest.1 + if s.2 {
            1nat
        } else {
            0nat
        })
    }
}

proof fn lemma_over_is_silent(g: RunView, ps: Seq<Poll>)
    requires
        g.0 != RunStatus::Running,
    ensures
        run_spec(g, ps) == (Seq::<(Channel, Seq<char>)>::empty(), 0nat),
    decreases ps.len(),
{
    if ps.len() > 0 {
        lemma_over_is_silent(g, ps.skip(1));
        assert(Seq::<(Channel, Seq<char>)>::empty() + Seq::<(Channel, Seq<char>)>::empty()
            =~= Seq::<(Channel, Seq<char>)>::empty());
    }
}

/// Once cancellation is observed, no event is emitted any more, whatever
/// follows, the pending text is never flushed, and completion is signalled
/// exactly once.
pub proof fn lemma_cancel_drops(g: RunView, ps: Seq<Poll>)
    requires
        g.0 == RunStatus::Running,
        ps.len() > 0,
        ps[0] is Cancelled,
    ensures
        run_spec(g, ps).0 == Seq::<(Channel, Seq<char>)>::empty(),
        run_spec(g, ps).1 == 1,
        step_spec(g, ps[0]).0 == (RunStatus::Cancelled, g.1, g.2),
{
    lemma_over_is_silent(step_spec(g, ps[0]).0, ps.skip(1));
    assert(Seq::<(Channel, Seq<char>)>::empty() + Seq::<(Channel, Seq<char>)>::empty()
        =~= Seq::<(Channel, Seq<char>)>::empty());
}

/// Completion is signalled at most once per request, and exactly once when
/// the last poll reports exhaustion or cancellation.
pub proof fn lemma_completes_once(g: RunView, ps: Seq<Poll>)
    ensures
        run_spec(g, ps).1 <= 1,
        g.0 == RunStatus::Running && ps.len() > 0 && !(ps.last() is Token) ==> run_spec(g, ps).1
            == 1,
    decreases ps.len(),
{
    if g.0 != RunStatus::Running {
        lemma_over_is_silent(g, ps);
    } else if ps.len() > 0 {
        let s = step_spec(g, ps[0]);
        if s.2 {
            lemma_over_is_silent(s.0, ps.skip(1));
        } else {
            lemma_completes_once(s.0, ps.skip(1));
            if ps.len() > 1 {
                assert(ps.skip(1).last() == ps.last());
            }
        }
    }
}

/// The state of one generation request.
pub struct Generation {
    classifier: Classifier,
    status: RunStatus,
}

impl View for Generation {
    type V = RunView;

    closed spec fn view(&self) -> RunView {
        (self.status, self.classifier@.0, self.classifier@.1)
    }
}

impl Generation {
    /// A request that is running, idle, with nothing pending.
    pub fn new() -> (r: Generation)
        ensures
            r@ == (RunStatus::Running, ParseState::Idle, Seq::<char>::empty()),
    {
        Generation { classifier: Classifier::new(), status: RunStatus::Running }
    }

    /// Where the request stands.
    pub fn status(&self) -> (r: RunStatus)
        ensures
            r == self@.0,
    {
        self.status
    }

    /// Takes one polled outcome: normalizes and classifies a token's text,
    /// flushes on exhaustion, and drops everything on cancellation.
    pub fn step(&mut self, poll: Poll) -> (r: Step)
        ensures
            (final(self)@, events_view(r.events@), r.complete) == step_spec(old(self)@, poll),
    {
        if self.status != RunStatus::Running {
            let r = Step { events: Vec::new(), complete: false };
            assert(events_view(r.events@) =~= seq![]);
            return r;
        }
        match poll {
            Poll::Cancelled => {
                self.status = RunStatus::Cancelled;
                let r = Step { events: Vec::new(), complete: true };
                assert(events_view(r.events@) =~= seq![]);
                r
            },
            Poll::Token(t) => {
                let text = normalize(t.as_str());
                let events = self.classifier.feed(text.as_str());
                Step { events, complete: false }
            },
            Poll::Exhausted => {
                let events = self.classifier.finalize();
                self.status = RunStatus::Completed;
                Step { events, complete: true }
            },
        }
    }
}

} // verus!
