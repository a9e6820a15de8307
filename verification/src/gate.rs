//! The publication policy: a record is announced once, and not more often
//! than the minimum interval allows.

use vstd::prelude::*;
use vstd::string::*;
use crate::record::texts;

verus! {

/// The least time between two announcements, in milliseconds.
pub const MIN_INTERVAL_MS: u64 = 5000;

/// The number of remembered renderings beyond which all are forgotten.
pub const SEEN_LIMIT: usize = 100;

/// Remembers what was announced and when.
#[derive(Debug, Clone)]
pub struct DedupRateLimiter {
    /// The renderings announced since they were last forgotten, each once.
    pub seen: Vec<String>,
    /// When the last announcement was made, in milliseconds.
    pub last_emit_ms: u64,
    /// Whether anything was announced yet.
    pub started: bool,
}

/// The mathematical value of the policy's state.
pub struct GateView {
    pub seen: Seq<Seq<char>>,
    pub last_emit_ms: u64,
    pub started: bool,
}

impl View for DedupRateLimiter {
    type V = GateView;

    open spec fn view(&self) -> GateView {
        GateView { seen: texts(self.seen@), last_emit_ms: self.last_emit_ms, started: self.started }
    }
}

/// The state before anything was announced.
pub open spec fn initial_gate() -> GateView {
    GateView { seen: Seq::empty(), last_emit_ms: 0, started: false }
}

/// A valid state remembers each rendering once, never more than the limit,
/// and nothing before the first announcement.
pub open spec fn gate_wf(gate: GateView) -> bool {
    &&& gate.seen.no_duplicates()
    &&& gate.seen.len() <= SEEN_LIMIT
    &&& !gate.started ==> gate.seen.len() == 0
}

/// The minimum interval has passed between `last` and `now`. A clock that
/// went backwards counts as passed.
pub open spec fn interval_passed(last: u64, now: u64) -> bool {
    now < last || now - last >= MIN_INTERVAL_MS
}

/// Whether a candidate with this rendering is announced at time `now_ms`:
/// always the first time, later only if it is not remembered and the
/// interval has passed.
pub open spec fn emits(gate: GateView, rendering: Seq<char>, now_ms: u64) -> bool {
    !gate.started || (!gate.seen.contains(rendering) && interval_passed(
        gate.last_emit_ms,
        now_ms,
    ))
}

/// What is remembered after an announcement: the rendering too, or nothing
/// at all where that makes more than the limit.
pub open spec fn remembered(seen: Seq<Seq<char>>, rendering: Seq<char>) -> Seq<Seq<char>> {
    if seen.len() + 1 > SEEN_LIMIT {
        Seq::empty()
    } else {
        seen.push(rendering)
    }
}

/// The state after a candidate was offered at time `now_ms`.
pub open spec fn offered(gate: GateView, rendering: Seq<char>, now_ms: u64) -> GateView {
    if emits(gate, rendering, now_ms) {
        GateView { seen: remembered(gate.seen, rendering), last_emit_ms: now_ms, started: true }
    } else {
        gate
    }
}

/// Offering a candidate keeps the state valid.
pub proof fn lemma_offered_wf(gate: GateView, rendering: Seq<char>, now_ms: u64)
    requires
        gate_wf(gate),
    ensures
        gate_wf(offered(gate, rendering, now_ms)),
{
    if emits(gate, rendering, now_ms) && gate.seen.len() + 1 <= SEEN_LIMIT {
        let grown = gate.seen.push(rendering);
        assert(!gate.seen.contains(rendering));
        assert forall|i: int, j: int| 0 <= i < grown.len() && 0 <= j < grown.len() && i != j implies
            grown[i] != grown[j] by {
            if i < gate.seen.len() {
                assert(gate.seen.contains(gate.seen[i]));
            }
            if j < gate.seen.len() {
                assert(gate.seen.contains(gate.seen[j]));
            }
        }
    }
}

/// A rendering that was just announced is not announced again, whenever it
/// is offered, as long as it is remembered.
pub proof fn law_announced_once(gate: GateView, rendering: Seq<char>, first_ms: u64, again_ms: u64)
    requires
        emits(gate, rendering, first_ms),
        gate.seen.len() + 1 <= SEEN_LIMIT,
    ensures
        !emits(offered(gate, rendering, first_ms), rendering, again_ms),
{
    let after = offered(gate, rendering, first_ms);
    assert(after.seen[after.seen.len() - 1] == rendering);
}

/// After an announcement nothing else is announced, whatever it is, until
/// the minimum interval has passed.
pub proof fn law_interval_is_kept(
    gate: GateView,
    rendering: Seq<char>,
    first_ms: u64,
    next: Seq<char>,
    next_ms: u64,
)
    requires
        emits(gate, rendering, first_ms),
        first_ms <= next_ms < first_ms + MIN_INTERVAL_MS,
    ensures
        !emits(offered(gate, rendering, first_ms), next, next_ms),
{
}

/// A candidate that is not announced leaves no trace.
pub proof fn law_suppressed_leaves_no_trace(gate: GateView, rendering: Seq<char>, now_ms: u64)
    requires
        !emits(gate, rendering, now_ms),
    ensures
        offered(gate, rendering, now_ms) == gate,
{
}

impl DedupRateLimiter {
    /// The state is valid.
    pub open spec fn wf(&self) -> bool {
        gate_wf(self@)
    }

    /// The state before anything was announced.
    pub fn new() -> (gate: Self)
        ensures
            gate@ == initial_gate(),
            gate.wf(),
    {
        let gate = DedupRateLimiter { seen: Vec::new(), last_emit_ms: 0, started: false };
        proof {
            assert(gate@.seen =~= Seq::empty());
        }
        gate
    }

    /// Whether this rendering is remembered.
    pub fn has_seen(&self, rendering: &String) -> (found: bool)
        ensures
            found == self@.seen.contains(rendering@),
    {
        let n: usize = self.seen.len();
        let mut i: usize = 0;
        while i < n
            invariant
                i <= n,
                n == self.seen@.len(),
                forall|j: int| 0 <= j < i ==> self@.seen[j] != rendering@,
            decreases n - i,
        {
            if self.seen[i] == *rendering {
                proof {
                    assert(self@.seen[i as int] == rendering@);
                }
                return true;
            }
            i = i + 1;
        }
        false
    }

    /// Offers a candidate with this rendering at time `now_ms` and says
    /// whether it is to be announced. An announced one is remembered and
    /// restarts the interval; one that is not leaves the state as it was.
    pub fn offer(&mut self, rendering: &str, now_ms: u64) -> (announce: bool)
        ensures
            old(self).wf() ==> final(self).wf(),
            announce == emits(old(self)@, rendering@, now_ms),
            final(self)@ == offered(old(self)@, rendering@, now_ms),
    {
        proof {
            if self.wf() {
                lemma_offered_wf(self@, rendering@, now_ms);
            }
        }
        let text = String::from_str(rendering);
        if self.started {
            if self.has_seen(&text) {
                return false;
            }
            if now_ms >= self.last_emit_ms && now_ms - self.last_emit_ms < MIN_INTERVAL_MS {
                return false;
            }
        }
        let ghost before = self@.seen;
        self.seen.push(text);
        proof {
            assert(self@.seen =~= before.push(rendering@));
        }
        if self.seen.len() > SEEN_LIMIT {
            self.seen.clear();
            proof {
                assert(self@.seen =~= Seq::empty());
            }
        }
        self.last_emit_ms = now_ms;
        self.started = true;
        true
    }
}

} // verus!
