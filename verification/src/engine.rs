//! Playback scheduler core: the active token sequence, the advance policies
//! (sequential and randomized-no-repeat), manual stepping through the
//! navigation history, hot source reload, and pacing.
//!
//! The surrounding process runs the polling loop, reads the shared control
//! fields and the command queues, and calls into this engine; every decision
//! the loop takes — which index comes next, what the history retains, which
//! token is published — is made here.

use vstd::prelude::*;

use crate::history::{spec_clamp, spec_record, spec_replay_back, spec_replay_forward, History};
use crate::ingest::{ingest_text, spec_ingest, views};

verus! {

/// The number of visited indices the navigation history retains.
pub const HISTORY_SIZE: usize = 512;

/// A manual step request, serviced while playback is paused.
#[allow(non_camel_case_types)]
#[derive(Clone, Copy, Debug)]
pub enum StepDir {
    FORWARD,
    BACKWARD,
}

/// The placeholder token substituted when a source is missing, unreadable
/// or yields no tokens.
pub open spec fn sentinel() -> Seq<char> {
    "no valid source"@
}

fn sentinel_tokens() -> (r: Vec<String>)
    ensures
        views(r@) == seq![sentinel()],
{
    let mut out: Vec<String> = Vec::new();
    let token = String::from_str("no valid source");
    proof {
        crate::ingest::lemma_views_push(out@, token);
        assert(views(out@).push(token@) =~= seq![sentinel()]);
    }
    out.push(token);
    out
}

/// What a reload yields: the ingested tokens and display mode, or the
/// single-token sentinel sequence when the text is missing or ingestion
/// yields nothing.
pub open spec fn spec_source(text: Option<Seq<char>>) -> (Seq<Seq<char>>, bool) {
    match text {
        Option::None => (seq![sentinel()], false),
        Option::Some(s) => {
            let r = spec_ingest(s);
            if r.0.len() == 0 {
                (seq![sentinel()], false)
            } else {
                r
            }
        },
    }
}

/// Sequential advance: the next index, wrapping past the end — that is,
/// `(cur + 1) mod len` for any `cur` below `len`.
pub open spec fn spec_seq_next(cur: int, len: int) -> int {
    if cur + 1 < len {
        cur + 1
    } else {
        0
    }
}

/// Randomized-no-repeat advance: take the drawn candidate, but when it
/// equals the most recently recorded index bump it one position (modulo
/// `len`) — a single deterministic bump, not a re-roll loop.
pub open spec fn spec_rand_next(candidate: int, prev: int, len: int) -> int {
    if candidate == prev {
        spec_seq_next(candidate, len)
    } else {
        candidate
    }
}

/// Backward synthesis: the previous index, wrapping at zero.
pub open spec fn spec_prev(cur: int, len: int) -> int {
    if cur > 0 {
        cur - 1
    } else {
        len - 1
    }
}

/// The sequential policy in modular form: for any index below `len`, the
/// wrapped successor is exactly `(cur + 1) mod len`.
pub proof fn lemma_seq_next_is_mod(cur: int, len: int)
    requires
        0 <= cur < len,
    ensures
        spec_seq_next(cur, len) == (cur + 1) % len,
{
    if cur + 1 < len {
        vstd::arithmetic::div_mod::lemma_small_mod((cur + 1) as nat, len as nat);
    } else {
        vstd::arithmetic::div_mod::lemma_mod_self_0(len);
    }
}

pub fn advance_sequential(cur: usize, len: usize) -> (r: usize)
    requires
        len >= 1,
        cur < len,
    ensures
        r == spec_seq_next(cur as int, len as int),
        r < len,
        len >= 2 ==> r != cur,
{
    if cur + 1 < len {
        cur + 1
    } else {
        0
    }
}

pub fn advance_randomized(candidate: usize, prev: usize, len: usize) -> (r: usize)
    requires
        len >= 1,
        candidate < len,
    ensures
        r == spec_rand_next(candidate as int, prev as int, len as int),
        r < len,
        len >= 2 ==> r != prev,
        len == 1 ==> r == 0,
{
    if candidate == prev {
        if candidate + 1 < len {
            candidate + 1
        } else {
            0
        }
    } else {
        candidate
    }
}

/// Relies on rand::random_range over `0..n`: a value drawn uniformly from
/// that non-empty range, hence always below `n`.  Nothing more is assumed
/// of which value comes back.
#[verifier::external_body]
fn random_below(n: usize) -> (r: usize)
    requires
        n >= 1,
    ensures
        r < n,
{
    rand::random_range(0..n)
}

/// Milliseconds between two automatic advances at `rate` tokens per minute:
/// `60/rate` seconds, truncated to whole milliseconds.
pub open spec fn spec_delay_millis(rate: int) -> int {
    60000int / rate
}

pub fn delay_millis(rate: u32) -> (d: u64)
    requires
        rate >= 1,
    ensures
        d == spec_delay_millis(rate as int),
{
    60000u64 / (rate as u64)
}

/// Pacing is antitone in the rate: raising the rate never lengthens the
/// inter-advance delay, so lowering it never shortens the delay.
pub proof fn lemma_delay_antitone(r1: int, r2: int)
    requires
        1 <= r1 <= r2,
    ensures
        spec_delay_millis(r2) <= spec_delay_millis(r1),
{
    vstd::arithmetic::div_mod::lemma_div_is_ordered_by_denominator(60000, r1, r2);
}

/// No immediate repeat: whatever candidate the draw produced, the
/// randomized policy never selects the most recently recorded index when
/// the sequence has at least two tokens.
pub proof fn lemma_no_immediate_repeat(candidate: int, prev: int, len: int)
    requires
        2 <= len,
        0 <= candidate < len,
    ensures
        spec_rand_next(candidate, prev, len) != prev,
        0 <= spec_rand_next(candidate, prev, len) < len,
{
}

/// The playback engine: the active token sequence and display mode, the
/// bounded navigation history, and the active index.  The scheduler loop
/// owns one of these exclusively; the presentation side only sees the
/// tokens the engine publishes.
pub struct Engine {
    words: Vec<String>,
    paragraph: bool,
    history: History,
    idx: usize,
}

impl Engine {
    /// The active token sequence.
    pub closed spec fn tokens(&self) -> Seq<Seq<char>> {
        views(self.words@)
    }

    /// Whether the active sequence is paragraph-flow text.
    pub closed spec fn is_paragraph(&self) -> bool {
        self.paragraph
    }

    /// The active index: the cursor selecting the displayed token.
    pub closed spec fn index(&self) -> usize {
        self.idx
    }

    /// The retained history window.
    pub closed spec fn hist(&self) -> Seq<usize> {
        self.history.entries_view()
    }

    /// The history cursor.
    pub closed spec fn pos(&self) -> int {
        self.history.pos()
    }

    /// The history capacity.
    pub closed spec fn cap(&self) -> int {
        self.history.cap()
    }

    /// Well-formedness: the sequence is never empty, the history is a
    /// well-formed window of in-range indices, and the active index is
    /// exactly the recorded index under the history cursor.
    pub open spec fn wf(&self) -> bool {
        &&& 1 <= self.cap()
        &&& 1 <= self.hist().len() <= self.cap()
        &&& 0 <= self.pos() < self.hist().len()
        &&& 1 <= self.tokens().len()
        &&& (self.index() as int) < self.tokens().len()
        &&& forall|i: int| 0 <= i < self.hist().len() ==> (self.hist()[i] as int) < self.tokens().len()
        &&& self.index() == self.hist()[self.pos()]
    }

    /// A fresh engine: the sentinel sequence, index zero, and a history
    /// holding just that index.
    pub fn new(capacity: usize) -> (e: Engine)
        requires
            capacity >= 1,
        ensures
            e.wf(),
            e.cap() == capacity,
            e.tokens() == seq![sentinel()],
            e.is_paragraph() == false,
            e.index() == 0,
            e.hist() == seq![0usize],
            e.pos() == 0,
    {
        let words = sentinel_tokens();
        let history = History::new(capacity, 0);
        Engine { words, paragraph: false, history, idx: 0 }
    }

    /// The token currently published for display.
    pub fn current_token(&self) -> (r: String)
        requires
            self.wf(),
        ensures
            r@ == self.tokens()[self.index() as int],
    {
        self.words[self.idx].clone()
    }

    /// The published display mode.
    pub fn display_mode(&self) -> (b: bool)
        ensures
            b == self.is_paragraph(),
    {
        self.paragraph
    }

    /// Replace the token source as one logical update: ingest the text (or,
    /// when it is missing or yields nothing, substitute the sentinel),
    /// publish the new display mode, and clamp the history and the active
    /// index into the new bounds.  The engine is never left without a valid
    /// active index.
    pub fn reload(&mut self, text: Option<&str>)
        requires
            old(self).wf(),
        ensures
            final(self).wf(),
            final(self).cap() == old(self).cap(),
            ({
                let src = match text {
                    Option::Some(t) => spec_source(Option::Some(t@)),
                    Option::None => spec_source(Option::None),
                };
                final(self).tokens() == src.0 && final(self).is_paragraph() == src.1
            }),
            final(self).hist().len() == old(self).hist().len(),
            final(self).pos() == old(self).pos(),
            forall|i: int|
                0 <= i < final(self).hist().len() ==> final(self).hist()[i] == spec_clamp(
                    old(self).hist()[i],
                    (final(self).tokens().len() as usize),
                ),
            final(self).index() == final(self).hist()[final(self).pos()],
    {
        match text {
            Option::Some(t) => {
                let r = ingest_text(t);
                if r.0.len() == 0 {
                    self.words = sentinel_tokens();
                    self.paragraph = false;
                } else {
                    self.words = r.0;
                    self.paragraph = r.1;
                }
            },
            Option::None => {
                self.words = sentinel_tokens();
                self.paragraph = false;
            },
        }
        proof {
            assert(views(self.words@).len() == self.words@.len());
        }
        let len = self.words.len();
        self.history.clamp(len);
        self.idx = self.history.current();
    }

    /// One Running-state cycle: select the next index under the active
    /// advance policy, record it in the history, and publish its token.
    /// During continuous running the cursor is always at the history
    /// frontier, so with at least two tokens no two consecutively published
    /// indices are equal — under the randomized policy because the single
    /// bump avoids the most recently recorded index, under the sequential
    /// policy by construction.
    pub fn auto_advance(&mut self, randomize: bool) -> (r: String)
        requires
            old(self).wf(),
        ensures
            final(self).wf(),
            final(self).tokens() == old(self).tokens(),
            final(self).is_paragraph() == old(self).is_paragraph(),
            final(self).cap() == old(self).cap(),
            final(self).hist() == spec_record(
                old(self).hist(),
                old(self).cap(),
                final(self).index(),
            ),
            final(self).pos() == final(self).hist().len() - 1,
            !randomize ==> final(self).index() as int == spec_seq_next(
                old(self).index() as int,
                old(self).tokens().len() as int,
            ),
            randomize && old(self).tokens().len() >= 2 ==> final(self).index() != old(self).hist().last(),
            randomize && old(self).tokens().len() == 1 ==> final(self).index() == 0,
            old(self).tokens().len() >= 2 && old(self).pos() == old(self).hist().len() - 1
                ==> final(self).index() != old(self).index(),
            r@ == final(self).tokens()[final(self).index() as int],
    {
        let len = self.words.len();
        let next: usize = if randomize {
            let candidate = random_below(len);
            advance_randomized(candidate, self.history.last_recorded(), len)
        } else {
            advance_sequential(self.idx, len)
        };
        self.history.record(next);
        self.idx = next;
        proof {
            let h0 = old(self).hist();
            let h2 = self.hist();
            assert forall|i: int| 0 <= i < h2.len() implies (h2[i] as int)
                < self.tokens().len() by {
                if h0.len() + 1 > old(self).cap() {
                    assert(h2[i] == h0.push(next)[i + (h0.len() + 1 - old(self).cap())]);
                } else {
                    assert(h2[i] == h0.push(next)[i]);
                }
            };
        }
        self.words[next].clone()
    }

    /// One Paused-state step command: replay within the retained history
    /// window when the cursor is not at its edge, otherwise synthesize a new
    /// index — forward under the active advance policy, backward by
    /// decrementing with wrap-around — record it, and publish the selected
    /// token.  Backward-then-forward inside the window replays the exact
    /// path taken.
    pub fn step(&mut self, dir: StepDir, randomize: bool) -> (r: String)
        requires
            old(self).wf(),
        ensures
            final(self).wf(),
            final(self).tokens() == old(self).tokens(),
            final(self).is_paragraph() == old(self).is_paragraph(),
            final(self).cap() == old(self).cap(),
            dir is BACKWARD && old(self).pos() > 0 ==> final(self).hist() == old(self).hist()
                && final(self).pos() == spec_replay_back(old(self).hist(), old(self).pos()).0
                && final(self).index() == spec_replay_back(old(self).hist(), old(self).pos()).1,
            dir is BACKWARD && old(self).pos() == 0 ==> final(self).index() as int == spec_prev(
                old(self).index() as int,
                old(self).tokens().len() as int,
            ) && final(self).hist() == spec_record(
                old(self).hist(),
                old(self).cap(),
                final(self).index(),
            ) && final(self).pos() == final(self).hist().len() - 1 && (old(self).tokens().len()
                >= 2 ==> final(self).index() != old(self).index()),
            dir is FORWARD && old(self).pos() < old(self).hist().len() - 1 ==> final(self).hist()
                == old(self).hist() && final(self).pos() == spec_replay_forward(
                old(self).hist(), old(self).pos()).0
                && final(self).index() == spec_replay_forward(old(self).hist(), old(self).pos()).1,
            dir is FORWARD && old(self).pos() == old(self).hist().len() - 1 ==> ((!randomize
                ==> final(self).index() as int == spec_seq_next(
                old(self).index() as int,
                old(self).tokens().len() as int,
            )) && (randomize && old(self).tokens().len() >= 2 ==> final(self).index() != old(self).hist().last()) && (randomize && old(self).tokens().len() == 1 ==> final(self).index() == 0) && final(self).hist() == spec_record(
                old(self).hist(),
                old(self).cap(),
                final(self).index(),
            ) && final(self).pos() == final(self).hist().len() - 1 && (old(self).tokens().len()
                >= 2 ==> final(self).index() != old(self).index())),
            r@ == final(self).tokens()[final(self).index() as int],
    {
        match dir {
            StepDir::FORWARD => {
                if !self.history.at_frontier() {
                    self.idx = self.history.replay_forward();
                } else {
                    let len = self.words.len();
                    let next: usize = if randomize {
                        let candidate = random_below(len);
                        advance_randomized(candidate, self.history.last_recorded(), len)
                    } else {
                        advance_sequential(self.idx, len)
                    };
                    self.history.record(next);
                    self.idx = next;
                    proof {
                        let h0 = old(self).hist();
                        let h2 = self.hist();
                        assert forall|i: int| 0 <= i < h2.len() implies (h2[i] as int)
                            < self.tokens().len() by {
                            if h0.len() + 1 > old(self).cap() {
                                assert(h2[i] == h0.push(next)[i + (h0.len() + 1 - old(self).cap())]);
                            } else {
                                assert(h2[i] == h0.push(next)[i]);
                            }
                        };
                    }
                }
            },
            StepDir::BACKWARD => {
                if !self.history.at_oldest() {
                    self.idx = self.history.replay_back();
                } else {
                    let len = self.words.len();
                    let prev: usize = if self.idx > 0 {
                        self.idx - 1
                    } else {
                        len - 1
                    };
                    self.history.record(prev);
                    self.idx = prev;
                    proof {
                        let h0 = old(self).hist();
                        let h2 = self.hist();
                        assert forall|i: int| 0 <= i < h2.len() implies (h2[i] as int)
                            < self.tokens().len() by {
                            if h0.len() + 1 > old(self).cap() {
                                assert(h2[i] == h0.push(prev)[i + (h0.len() + 1 - old(self).cap())]);
                            } else {
                                assert(h2[i] == h0.push(prev)[i]);
                            }
                        };
                    }
                }
            },
        }
        self.words[self.idx].clone()
    }
}

} // verus!
