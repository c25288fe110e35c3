//! Tabular Q-learning state for gain scheduling, shared across channels.
//!
//! Q-values are held as the IEEE-754 bit patterns of `f64`s: the learning
//! arithmetic on them happens outside this crate, while the bookkeeping kept
//! here (visit counts, the exploration generator, guided exploration, the
//! confidence gate and the persisted blob format) reads them only as bits.

use vstd::bytes::*;
use vstd::prelude::*;
use vstd::slice::slice_subrange;

use crate::error::VardiffError;

verus! {

/// Number of discrete window states.
pub const STATES: usize = 36;
/// Number of gain actions: `(kp, ki, kd)` steps in base 3.
pub const ACTIONS: usize = 27;
/// Index of the keep/keep/keep action (no gain change).
pub const KEEP_ACTION: usize = 13;
/// Number of `(state, action)` cells in the table.
pub const CELLS: usize = 972;
/// Minimum visits on a learned action before it may override the base gains.
pub const MIN_CONFIDENT_VISITS: u32 = 30;
/// Bit pattern of `1e-3_f64`, the optimistic seed on the keep action.
pub const KEEP_SEED_Q: u64 = 0x3F50_624D_D2F1_A9FC;
/// Persisted format version.
pub const QTABLE_VERSION: u16 = 1;
/// Header length: magic, version, state count, action count, rng, total.
pub const QTABLE_HEADER_LEN: usize = 30;
/// Offset of the visit counts in a persisted blob.
pub const QTABLE_VISITS_OFFSET: usize = 7806;
/// Exact length of a persisted blob.
pub const QTABLE_BLOB_LEN: usize = 11694;
/// `2^53`: exploration draws are 53-bit integers `m`, standing for `m / 2^53`.
pub const DRAW_SCALE: u64 = 0x20_0000_0000_0000;
/// `2^52`: a draw below it is a draw below one half.
pub const DRAW_HALF: u64 = 0x10_0000_0000_0000;
/// The one draw `m` at which `m / 2^53 * 3.0`, rounded to the nearest
/// double, lands exactly on `2.0` although `3m / 2^53` lies just below it
/// (`3m = 2^54 - 1`, a tie that rounds to even).
pub const AXIS_ROUNDING_TIE: u64 = 6004799503160661;

/// Abstract contents of a [`QTable`].
pub struct QTableView {
    /// Q-values (bit patterns), indexed `state * ACTIONS + action`.
    pub q: Seq<u64>,
    /// Visit counts, indexed like `q`.
    pub visits: Seq<u32>,
    /// Total recorded decisions.
    pub total: u64,
    /// xorshift64 generator state.
    pub rng: u64,
}

impl QTableView {
    /// Full-size table with a live (nonzero) generator.
    pub open spec fn well_formed(self) -> bool {
        &&& self.q.len() == CELLS
        &&& self.visits.len() == CELLS
        &&& self.rng != 0
    }
}

/// Tabular Q-values shared across all channels of a pool.
#[derive(Debug)]
pub struct QTable {
    q: Vec<u64>,
    visits: Vec<u32>,
    total: u64,
    rng: u64,
}

impl View for QTable {
    type V = QTableView;

    closed spec fn view(&self) -> QTableView {
        QTableView { q: self.q@, visits: self.visits@, total: self.total, rng: self.rng }
    }
}

/// One xorshift64 step (shifts 13, 7, 17).
pub open spec fn xorshift64(x: u64) -> u64 {
    let a = x ^ (x << 13u64);
    let b = a ^ (a >> 7u64);
    b ^ (b << 17u64)
}

/// The 53-bit draw a generator state yields.
pub open spec fn draw_of(x: u64) -> u64 {
    x >> 11u64
}

/// Initial Q-values: zero except the optimistic seed on the keep action.
pub open spec fn seeded_q() -> Seq<u64> {
    Seq::new(CELLS as nat, |i: int| if i % 27 == 13 { KEEP_SEED_Q } else { 0u64 })
}

/// The `(kp, ki, kd)` steps of an action, each in `{0 = down, 1 = keep, 2 = up}`.
pub open spec fn action_digits(a: int) -> (int, int, int) {
    (a / 9, (a / 3) % 3, a % 3)
}

/// The action with the given steps.
pub open spec fn action_from_digits(d: (int, int, int)) -> int {
    d.0 * 9 + d.1 * 3 + d.2
}

/// `a` and `b` differ on exactly one gain axis, by exactly one step.
pub open spec fn one_step_neighbors(a: int, b: int) -> bool {
    let (a0, a1, a2) = action_digits(a);
    let (b0, b1, b2) = action_digits(b);
    ||| (a0 != b0 && a1 == b1 && a2 == b2 && (a0 - b0 == 1 || b0 - a0 == 1))
    ||| (a0 == b0 && a1 != b1 && a2 == b2 && (a1 - b1 == 1 || b1 - a1 == 1))
    ||| (a0 == b0 && a1 == b1 && a2 != b2 && (a2 - b2 == 1 || b2 - a2 == 1))
}

/// The exploration axis a draw selects: `floor(m / 2^53 * 3)` as computed in
/// double precision.
pub open spec fn explore_axis(m: u64) -> int {
    if m == AXIS_ROUNDING_TIE {
        2
    } else {
        (3 * m) / (DRAW_SCALE as int)
    }
}

/// `a` with the step on `axis` replaced by `s`.
pub open spec fn with_axis_step(a: int, axis: int, s: int) -> int {
    let d = action_digits(a);
    if axis == 0 {
        action_from_digits((s, d.1, d.2))
    } else if axis == 1 {
        action_from_digits((d.0, s, d.2))
    } else {
        action_from_digits((d.0, d.1, s))
    }
}

/// The current step of `a` on `axis`.
pub open spec fn axis_step(a: int, axis: int) -> int {
    let d = action_digits(a);
    if axis == 0 {
        d.0
    } else if axis == 1 {
        d.1
    } else {
        d.2
    }
}

/// Guided exploration from generator state `rng` and greedy action `greedy`:
/// the explored action and the generator state afterwards. One draw picks
/// the axis; a boundary step moves toward keep, a keep step moves down or up
/// on a second draw (below one half: down).
pub open spec fn explore_outcome(rng: u64, greedy: int) -> (int, u64) {
    let r1 = xorshift64(rng);
    let axis = explore_axis(draw_of(r1));
    let step = axis_step(greedy, axis);
    if step == 0 || step == 2 {
        (with_axis_step(greedy, axis, 1), r1)
    } else {
        let r2 = xorshift64(r1);
        let s = if draw_of(r2) < DRAW_HALF {
            0int
        } else {
            2int
        };
        (with_axis_step(greedy, axis, s), r2)
    }
}

/// The exploit action behind the confidence gate: the learned best action
/// only when it has at least `MIN_CONFIDENT_VISITS` visits in `state` and its
/// Q-advantage over keep clears the margin; otherwise keep.
pub open spec fn gated_action(v: QTableView, state: int, best: int, clears_margin: bool) -> int {
    if best == KEEP_ACTION as int {
        KEEP_ACTION as int
    } else if v.visits[state * 27 + best] >= MIN_CONFIDENT_VISITS && clears_margin {
        best
    } else {
        KEEP_ACTION as int
    }
}

/// State index of a window from its error-magnitude, trend and confidence
/// buckets.
pub open spec fn spec_state_index(magnitude: int, trend: int, confidence: int) -> int {
    (magnitude * 3 + trend) * 3 + confidence
}

/// Little-endian concatenation of a sequence of `u64`s.
pub open spec fn le_u64_seq(s: Seq<u64>) -> Seq<u8>
    decreases s.len(),
{
    if s.len() == 0 {
        Seq::empty()
    } else {
        le_u64_seq(s.drop_last()) + spec_u64_to_le_bytes(s.last())
    }
}

/// Little-endian concatenation of a sequence of `u32`s.
pub open spec fn le_u32_seq(s: Seq<u32>) -> Seq<u8>
    decreases s.len(),
{
    if s.len() == 0 {
        Seq::empty()
    } else {
        le_u32_seq(s.drop_last()) + spec_u32_to_le_bytes(s.last())
    }
}

/// The blob magic, `b"QPID"`.
pub open spec fn qtable_magic() -> Seq<u8> {
    seq![0x51u8, 0x50u8, 0x49u8, 0x44u8]
}

/// Persisted layout: `MAGIC | VERSION (u16) | STATES (u32) | ACTIONS (u32) |
/// rng (u64) | total (u64) | q values (u64 each) | visits (u32 each)`, all
/// little-endian.
pub open spec fn spec_encode(v: QTableView) -> Seq<u8> {
    qtable_magic() + spec_u16_to_le_bytes(QTABLE_VERSION) + spec_u32_to_le_bytes(36u32)
        + spec_u32_to_le_bytes(27u32) + spec_u64_to_le_bytes(v.rng) + spec_u64_to_le_bytes(
        v.total,
    ) + le_u64_seq(v.q) + le_u32_seq(v.visits)
}

/// A blob of the right length whose magic, version and embedded state and
/// action counts match this build.
pub open spec fn blob_header_ok(b: Seq<u8>) -> bool {
    &&& b.len() == QTABLE_BLOB_LEN
    &&& b.subrange(0, 4) == qtable_magic()
    &&& spec_u16_from_le_bytes(b.subrange(4, 6)) == QTABLE_VERSION
    &&& spec_u32_from_le_bytes(b.subrange(6, 10)) == 36
    &&& spec_u32_from_le_bytes(b.subrange(10, 14)) == 27
}

/// The generator state stored in a blob.
pub open spec fn blob_rng(b: Seq<u8>) -> u64 {
    spec_u64_from_le_bytes(b.subrange(14, 22))
}

/// Q-value `i` stored in a blob.
pub open spec fn blob_q(b: Seq<u8>, i: int) -> u64 {
    spec_u64_from_le_bytes(b.subrange(30 + 8 * i, 38 + 8 * i))
}

/// Visit count `i` stored in a blob.
pub open spec fn blob_visits(b: Seq<u8>, i: int) -> u32 {
    spec_u32_from_le_bytes(b.subrange(7806 + 4 * i, 7810 + 4 * i))
}

/// The table a blob decodes to, if its header is valid. A stored generator
/// state of zero (which would freeze xorshift64) is replaced by one.
pub open spec fn spec_decode(b: Seq<u8>) -> Option<QTableView> {
    if blob_header_ok(b) {
        Some(
            QTableView {
                q: Seq::new(CELLS as nat, |i: int| blob_q(b, i)),
                visits: Seq::new(CELLS as nat, |i: int| blob_visits(b, i)),
                total: spec_u64_from_le_bytes(b.subrange(22, 30)),
                rng: if blob_rng(b) == 0 {
                    1u64
                } else {
                    blob_rng(b)
                },
            },
        )
    } else {
        None
    }
}

/// xorshift64 never reaches zero from a nonzero state, so a seeded (or
/// decoded) generator never stalls.
pub proof fn lemma_xorshift_nonzero(x: u64)
    requires
        x != 0,
    ensures
        xorshift64(x) != 0,
{
    let a = x ^ (x << 13u64);
    assert(x != 0 ==> x ^ (x << 13u64) != 0) by (bit_vector);
    let b = a ^ (a >> 7u64);
    assert(a != 0 ==> a ^ (a >> 7u64) != 0) by (bit_vector);
    assert(b != 0 ==> b ^ (b << 17u64) != 0) by (bit_vector);
}

proof fn lemma_draw_bound(x: u64)
    ensures
        draw_of(x) < DRAW_SCALE,
{
    assert(x >> 11u64 < 0x20_0000_0000_0000u64) by (bit_vector);
}

proof fn lemma_le_u64_seq(s: Seq<u64>, j: int)
    requires
        0 <= j < 8 * s.len(),
    ensures
        le_u64_seq(s).len() == 8 * s.len(),
        le_u64_seq(s)[j] == spec_u64_to_le_bytes(s[j / 8])[j % 8],
    decreases s.len(),
{
    lemma_auto_spec_u64_to_from_le_bytes();
    let p = s.drop_last();
    lemma_le_u64_seq_len(p);
    if j < 8 * p.len() {
        lemma_le_u64_seq(p, j);
        assert(p[j / 8] == s[j / 8]);
    } else {
        assert(j / 8 == s.len() - 1);
    }
}

proof fn lemma_le_u64_seq_len(s: Seq<u64>)
    ensures
        le_u64_seq(s).len() == 8 * s.len(),
    decreases s.len(),
{
    lemma_auto_spec_u64_to_from_le_bytes();
    if s.len() > 0 {
        lemma_le_u64_seq_len(s.drop_last());
    }
}

proof fn lemma_le_u32_seq_len(s: Seq<u32>)
    ensures
        le_u32_seq(s).len() == 4 * s.len(),
    decreases s.len(),
{
    lemma_auto_spec_u32_to_from_le_bytes();
    if s.len() > 0 {
        lemma_le_u32_seq_len(s.drop_last());
    }
}

proof fn lemma_le_u32_seq(s: Seq<u32>, j: int)
    requires
        0 <= j < 4 * s.len(),
    ensures
        le_u32_seq(s).len() == 4 * s.len(),
        le_u32_seq(s)[j] == spec_u32_to_le_bytes(s[j / 4])[j % 4],
    decreases s.len(),
{
    lemma_auto_spec_u32_to_from_le_bytes();
    let p = s.drop_last();
    lemma_le_u32_seq_len(p);
    if j < 4 * p.len() {
        lemma_le_u32_seq(p, j);
        assert(p[j / 4] == s[j / 4]);
    } else {
        assert(j / 4 == s.len() - 1);
    }
}

/// Exec form of [`explore_axis`]: the axis `(m / 2^53 * 3.0) as usize % 3`
/// selects, reproduced exactly in integers.
fn explore_axis_of(m: u64) -> (axis: usize)
    requires
        m < DRAW_SCALE,
    ensures
        axis as int == explore_axis(m),
        axis < 3,
{
    if m == AXIS_ROUNDING_TIE {
        2
    } else {
        ((3 * m) / DRAW_SCALE) as usize
    }
}

/// Decomposes an action into its `(kp, ki, kd)` steps.
pub fn action_steps(action: usize) -> (steps: (usize, usize, usize))
    requires
        action < ACTIONS,
    ensures
        (steps.0 as int, steps.1 as int, steps.2 as int) == action_digits(action as int),
        steps.0 == action / 9 && steps.1 == (action / 3) % 3 && steps.2 == action % 3,
        steps.0 < 3 && steps.1 < 3 && steps.2 < 3,
        action_from_digits((steps.0 as int, steps.1 as int, steps.2 as int)) == action as int,
{
    (action / 9, (action / 3) % 3, action % 3)
}

/// State index from the bucketed window features: error magnitude (4
/// buckets), error trend (3) and confidence (3).
pub fn state_index(magnitude: usize, trend: usize, confidence: usize) -> (state: usize)
    requires
        magnitude < 4,
        trend < 3,
        confidence < 3,
    ensures
        state as int == spec_state_index(magnitude as int, trend as int, confidence as int),
        state < STATES,
        state / 9 == magnitude && (state / 3) % 3 == trend && state % 3 == confidence,
{
    (magnitude * 3 + trend) * 3 + confidence
}

/// Distinct bucket triples map to distinct states: the state space is an
/// exact product of the three features.
pub proof fn lemma_state_index_injective(m1: int, t1: int, c1: int, m2: int, t2: int, c2: int)
    requires
        0 <= m1 < 4 && 0 <= t1 < 3 && 0 <= c1 < 3,
        0 <= m2 < 4 && 0 <= t2 < 3 && 0 <= c2 < 3,
        spec_state_index(m1, t1, c1) == spec_state_index(m2, t2, c2),
    ensures
        m1 == m2 && t1 == t2 && c1 == c2,
{
}

/// The state index reads back as base-3 digits, error magnitude most
/// significant: magnitude is `state / 9`, trend `(state / 3) % 3` and
/// confidence `state % 3`.
pub proof fn lemma_state_index_digits(magnitude: int, trend: int, confidence: int)
    requires
        0 <= magnitude < 4 && 0 <= trend < 3 && 0 <= confidence < 3,
    ensures
        0 <= spec_state_index(magnitude, trend, confidence) < STATES,
        spec_state_index(magnitude, trend, confidence) / 9 == magnitude,
        (spec_state_index(magnitude, trend, confidence) / 3) % 3 == trend,
        spec_state_index(magnitude, trend, confidence) % 3 == confidence,
{
}

impl QTable {
    /// Deterministic construction: all Q-values zero except a tiny optimistic
    /// seed on the keep action of every state, no visits, and the generator
    /// seeded with `seed | 1`.
    pub fn with_seed(seed: u64) -> (t: Self)
        ensures
            t@.well_formed(),
            t@.q == seeded_q(),
            forall|s: int, a: int|
                0 <= s < STATES && 0 <= a < ACTIONS ==> #[trigger] t@.q[s * 27 + a] == if a
                    == KEEP_ACTION as int {
                    KEEP_SEED_Q
                } else {
                    0u64
                },
            forall|i: int| 0 <= i < CELLS ==> #[trigger] t@.visits[i] == 0u32,
            t@.visits == Seq::new(CELLS as nat, |i: int| 0u32),
            t@.total == 0,
            t@.rng == seed | 1,
    {
        let mut q: Vec<u64> = Vec::with_capacity(CELLS);
        let mut visits: Vec<u32> = Vec::with_capacity(CELLS);
        let mut i: usize = 0;
        while i < CELLS
            invariant
                i <= CELLS,
                q@.len() == i,
                visits@.len() == i,
                forall|k: int| 0 <= k < i ==> q@[k] == seeded_q()[k],
                forall|k: int| 0 <= k < i ==> visits@[k] == 0u32,
            decreases CELLS - i,
        {
            if i % 27 == 13 {
                q.push(KEEP_SEED_Q);
            } else {
                q.push(0);
            }
            visits.push(0);
            i = i + 1;
        }
        assert(q@ =~= seeded_q());
        assert(visits@ =~= Seq::new(CELLS as nat, |i: int| 0u32));
        assert forall|s: int, a: int| 0 <= s < STATES && 0 <= a < ACTIONS implies #[trigger] q@[s
            * 27 + a] == if a == KEEP_ACTION as int {
            KEEP_SEED_Q
        } else {
            0u64
        } by {
            assert(0 <= s * 27 + a < CELLS) by (nonlinear_arith)
                requires
                    0 <= s < 36,
                    0 <= a < 27,
            ;
            assert((s * 27 + a) % 27 == a) by (nonlinear_arith)
                requires
                    0 <= s < 36,
                    0 <= a < 27,
            ;
        }
        let rng = seed | 1;
        assert(seed | 1 != 0) by (bit_vector);
        QTable { q, visits, total: 0, rng }
    }

    /// Advances the xorshift64 generator and returns its 53-bit draw `m`
    /// (standing for the uniform value `m / 2^53`).
    pub fn next_random_bits(&mut self) -> (m: u64)
        requires
            old(self)@.well_formed(),
        ensures
            final(self)@ == (QTableView { rng: xorshift64(old(self)@.rng), ..old(self)@ }),
            final(self)@.well_formed(),
            m == draw_of(xorshift64(old(self)@.rng)),
            m < DRAW_SCALE,
    {
        let mut x = self.rng;
        x = x ^ (x << 13u64);
        x = x ^ (x >> 7u64);
        x = x ^ (x << 17u64);
        proof {
            lemma_xorshift_nonzero(self.rng);
            lemma_draw_bound(x);
        }
        self.rng = x;
        x >> 11u64
    }

    /// Guided exploration: perturbs `greedy` along exactly one gain axis by
    /// exactly one step. A boundary step (down or up) moves to keep; a keep
    /// step moves down or up with equal probability.
    pub fn explore_from(&mut self, greedy: usize) -> (a: usize)
        requires
            old(self)@.well_formed(),
            greedy < ACTIONS,
        ensures
            (a as int, final(self)@.rng) == explore_outcome(old(self)@.rng, greedy as int),
            final(self)@.q == old(self)@.q,
            final(self)@.visits == old(self)@.visits,
            final(self)@.total == old(self)@.total,
            final(self)@.well_formed(),
            a < ACTIONS,
            a != greedy,
            one_step_neighbors(greedy as int, a as int),
            ({
                let (g0, g1, g2) = (greedy / 9, (greedy / 3) % 3, greedy % 3);
                let (e0, e1, e2) = (a / 9, (a / 3) % 3, a % 3);
                ||| (e1 == g1 && e2 == g2 && (e0 == g0 + 1 || g0 == e0 + 1))
                ||| (e0 == g0 && e2 == g2 && (e1 == g1 + 1 || g1 == e1 + 1))
                ||| (e0 == g0 && e1 == g1 && (e2 == g2 + 1 || g2 == e2 + 1))
            }),
            ({
                let m1 = draw_of(xorshift64(old(self)@.rng));
                let (g0, g1, g2) = (greedy / 9, (greedy / 3) % 3, greedy % 3);
                let (e0, e1, e2) = (a / 9, (a / 3) % 3, a % 3);
                let g_axis = if e0 != g0 {
                    g0
                } else if e1 != g1 {
                    g1
                } else {
                    g2
                };
                let e_axis = if e0 != g0 {
                    e0
                } else if e1 != g1 {
                    e1
                } else {
                    e2
                };
                &&& (e0 != g0 <==> 3 * m1 < DRAW_SCALE)
                &&& (e1 != g1 <==> DRAW_SCALE <= 3 * m1 < 2 * DRAW_SCALE - 1)
                &&& (e2 != g2 <==> 2 * DRAW_SCALE - 1 <= 3 * m1)
                &&& g_axis != 1 ==> e_axis == 1 && final(self)@.rng == xorshift64(old(self)@.rng)
                &&& g_axis == 1 ==> final(self)@.rng == xorshift64(xorshift64(old(self)@.rng)) && (
                e_axis == 0 <==> draw_of(final(self)@.rng) < DRAW_HALF)
            }),
    {
        let (s0, s1, s2) = action_steps(greedy);
        let m = self.next_random_bits();
        let axis = explore_axis_of(m);
        let step = if axis == 0 {
            s0
        } else if axis == 1 {
            s1
        } else {
            s2
        };
        let new_step: usize = if step == 0 || step == 2 {
            1
        } else {
            let m2 = self.next_random_bits();
            if m2 < DRAW_HALF {
                0
            } else {
                2
            }
        };
        if axis == 0 {
            new_step * 9 + s1 * 3 + s2
        } else if axis == 1 {
            s0 * 9 + new_step * 3 + s2
        } else {
            s0 * 9 + s1 * 3 + new_step
        }
    }

    /// Total recorded decisions (how much experience the policy has absorbed).
    pub fn total_visits(&self) -> (n: u64)
        ensures
            n == self@.total,
    {
        self.total
    }

    /// Visit count of `action` in `state`.
    pub fn visit_count(&self, state: usize, action: usize) -> (n: u32)
        requires
            self@.well_formed(),
            state < STATES,
            action < ACTIONS,
        ensures
            n == self@.visits[state * 27 + action],
    {
        self.visits[state * ACTIONS + action]
    }

    /// Q-value (bit pattern) of `action` in `state`.
    pub fn q_bits(&self, state: usize, action: usize) -> (b: u64)
        requires
            self@.well_formed(),
            state < STATES,
            action < ACTIONS,
        ensures
            b == self@.q[state * 27 + action],
    {
        self.q[state * ACTIONS + action]
    }

    /// Overwrites the Q-value (bit pattern) of `action` in `state`.
    pub fn set_q_bits(&mut self, state: usize, action: usize, bits: u64)
        requires
            old(self)@.well_formed(),
            state < STATES,
            action < ACTIONS,
        ensures
            final(self)@ == (QTableView {
                q: old(self)@.q.update(state * 27 + action, bits),
                ..old(self)@
            }),
            final(self)@.well_formed(),
    {
        self.q.set(state * ACTIONS + action, bits);
    }

    /// Records one decision for `(state, action)`: its visit count grows by
    /// one (saturating) and the total by one.
    pub fn record_visit(&mut self, state: usize, action: usize)
        requires
            old(self)@.well_formed(),
            state < STATES,
            action < ACTIONS,
            old(self)@.total < u64::MAX,
        ensures
            final(self)@ == (QTableView {
                visits: old(self)@.visits.update(
                    state * 27 + action,
                    if old(self)@.visits[state * 27 + action] == u32::MAX {
                        u32::MAX
                    } else {
                        (old(self)@.visits[state * 27 + action] + 1) as u32
                    },
                ),
                total: (old(self)@.total + 1) as u64,
                ..old(self)@
            }),
            final(self)@.well_formed(),
    {
        let idx = state * ACTIONS + action;
        let v = self.visits[idx];
        self.visits.set(idx, v.saturating_add(1));
        self.total = self.total + 1;
    }

    /// The confidence gate on exploitation: given the learned best action of
    /// `state` and whether its Q-advantage over keep clears the margin,
    /// returns it only if it also has enough visits; otherwise keep.
    pub fn confidence_gate(&self, state: usize, best: usize, clears_margin: bool) -> (a: usize)
        requires
            self@.well_formed(),
            state < STATES,
            best < ACTIONS,
        ensures
            a as int == gated_action(self@, state as int, best as int, clears_margin),
            a == best || a == KEEP_ACTION,
            a != KEEP_ACTION ==> a == best && self@.visits[state * 27 + best]
                >= MIN_CONFIDENT_VISITS && clears_margin,
            best != KEEP_ACTION && self@.visits[state * 27 + best] >= MIN_CONFIDENT_VISITS
                && clears_margin ==> a == best,
    {
        if best == KEEP_ACTION {
            return KEEP_ACTION;
        }
        let enough_visits = self.visits[state * ACTIONS + best] >= MIN_CONFIDENT_VISITS;
        if enough_visits && clears_margin {
            best
        } else {
            KEEP_ACTION
        }
    }

    /// Serializes the table to its persisted little-endian layout
    /// (see [`spec_encode`]).
    pub fn encode(&self) -> (bytes: Vec<u8>)
        requires
            self@.well_formed(),
        ensures
            bytes@ == spec_encode(self@),
            bytes@.len() == QTABLE_BLOB_LEN,
            bytes@.subrange(0, 4) == seq![0x51u8, 0x50u8, 0x49u8, 0x44u8],
            bytes@.subrange(4, 6) == spec_u16_to_le_bytes(1u16),
            bytes@.subrange(6, 10) == spec_u32_to_le_bytes(36u32),
            bytes@.subrange(10, 14) == spec_u32_to_le_bytes(27u32),
            bytes@.subrange(14, 22) == spec_u64_to_le_bytes(self@.rng),
            bytes@.subrange(22, 30) == spec_u64_to_le_bytes(self@.total),
            forall|i: int|
                0 <= i < CELLS ==> #[trigger] bytes@.subrange(30 + 8 * i, 38 + 8 * i)
                    == spec_u64_to_le_bytes(self@.q[i]),
            forall|i: int|
                0 <= i < CELLS ==> #[trigger] bytes@.subrange(7806 + 4 * i, 7810 + 4 * i)
                    == spec_u32_to_le_bytes(self@.visits[i]),
    {
        let mut buf: Vec<u8> = Vec::with_capacity(QTABLE_BLOB_LEN);
        buf.push(0x51u8);
        buf.push(0x50u8);
        buf.push(0x49u8);
        buf.push(0x44u8);
        let mut v = u16_to_le_bytes(QTABLE_VERSION);
        buf.append(&mut v);
        let mut s = u32_to_le_bytes(36u32);
        buf.append(&mut s);
        let mut a = u32_to_le_bytes(27u32);
        buf.append(&mut a);
        let mut r = u64_to_le_bytes(self.rng);
        buf.append(&mut r);
        let mut t = u64_to_le_bytes(self.total);
        buf.append(&mut t);
        let ghost header = buf@;
        assert(header =~= qtable_magic() + spec_u16_to_le_bytes(QTABLE_VERSION)
            + spec_u32_to_le_bytes(36u32) + spec_u32_to_le_bytes(27u32) + spec_u64_to_le_bytes(
            self.rng,
        ) + spec_u64_to_le_bytes(self.total));
        let mut i: usize = 0;
        assert(self.q@.take(0) =~= Seq::<u64>::empty());
        while i < CELLS
            invariant
                self@.well_formed(),
                i <= CELLS,
                buf@ == header + le_u64_seq(self.q@.take(i as int)),
            decreases CELLS - i,
        {
            let mut b = u64_to_le_bytes(self.q[i]);
            buf.append(&mut b);
            proof {
                let tk = self.q@.take(i as int + 1);
                assert(tk.drop_last() =~= self.q@.take(i as int));
                assert(tk.last() == self.q@[i as int]);
                assert(buf@ =~= header + le_u64_seq(tk));
            }
            i = i + 1;
        }
        assert(self.q@.take(CELLS as int) =~= self.q@);
        let ghost mid = buf@;
        let mut j: usize = 0;
        assert(self.visits@.take(0) =~= Seq::<u32>::empty());
        while j < CELLS
            invariant
                self@.well_formed(),
                j <= CELLS,
                buf@ == mid + le_u32_seq(self.visits@.take(j as int)),
            decreases CELLS - j,
        {
            let mut b = u32_to_le_bytes(self.visits[j]);
            buf.append(&mut b);
            proof {
                let tk = self.visits@.take(j as int + 1);
                assert(tk.drop_last() =~= self.visits@.take(j as int));
                assert(tk.last() == self.visits@[j as int]);
                assert(buf@ =~= mid + le_u32_seq(tk));
            }
            j = j + 1;
        }
        assert(self.visits@.take(CELLS as int) =~= self.visits@);
        proof {
            lemma_encode_len(self@);
            lemma_encode_layout(self@);
        }
        buf
    }

    /// Reconstructs a table from [`QTable::encode`] output. Fails with
    /// [`VardiffError::InvalidQTableBlob`] exactly when the length, magic,
    /// version or embedded state/action counts do not match this build.
    pub fn decode(bytes: &[u8]) -> (res: Result<QTable, VardiffError>)
        ensures
            match res {
                Ok(t) => spec_decode(bytes@) == Some(t@) && t@.well_formed(),
                Err(e) => spec_decode(bytes@).is_none() && e == VardiffError::InvalidQTableBlob,
            },
            res is Ok <==> (bytes@.len() == QTABLE_BLOB_LEN && bytes@[0] == 0x51u8 && bytes@[1]
                == 0x50u8 && bytes@[2] == 0x49u8 && bytes@[3] == 0x44u8 && spec_u16_from_le_bytes(
                bytes@.subrange(4, 6),
            ) == 1u16 && spec_u32_from_le_bytes(bytes@.subrange(6, 10)) == 36u32
                && spec_u32_from_le_bytes(bytes@.subrange(10, 14)) == 27u32),
            res matches Ok(t) ==> t@.total == spec_u64_from_le_bytes(bytes@.subrange(22, 30))
                && t@.rng == (if spec_u64_from_le_bytes(bytes@.subrange(14, 22)) == 0 {
                1u64
            } else {
                spec_u64_from_le_bytes(bytes@.subrange(14, 22))
            }) && t@.q.len() == CELLS && t@.visits.len() == CELLS && (forall|i: int|
                0 <= i < CELLS ==> #[trigger] t@.q[i] == spec_u64_from_le_bytes(
                    bytes@.subrange(30 + 8 * i, 38 + 8 * i),
                )) && (forall|i: int|
                0 <= i < CELLS ==> #[trigger] t@.visits[i] == spec_u32_from_le_bytes(
                    bytes@.subrange(7806 + 4 * i, 7810 + 4 * i),
                )),
    {
        if bytes.len() != QTABLE_BLOB_LEN {
            return Err(VardiffError::InvalidQTableBlob);
        }
        let magic_ok = bytes[0] == 0x51u8 && bytes[1] == 0x50u8 && bytes[2] == 0x49u8 && bytes[3]
            == 0x44u8;
        proof {
            if magic_ok {
                assert(bytes@.subrange(0, 4) =~= qtable_magic());
            } else {
                assert(bytes@.subrange(0, 4) != qtable_magic()) by {
                    if bytes@.subrange(0, 4) == qtable_magic() {
                        assert(bytes@.subrange(0, 4)[0] == bytes@[0]);
                        assert(bytes@.subrange(0, 4)[1] == bytes@[1]);
                        assert(bytes@.subrange(0, 4)[2] == bytes@[2]);
                        assert(bytes@.subrange(0, 4)[3] == bytes@[3]);
                    }
                }
            }
        }
        if !magic_ok {
            return Err(VardiffError::InvalidQTableBlob);
        }
        let version = u16_from_le_bytes(slice_subrange(bytes, 4, 6));
        let states = u32_from_le_bytes(slice_subrange(bytes, 6, 10));
        let actions = u32_from_le_bytes(slice_subrange(bytes, 10, 14));
        if version != QTABLE_VERSION || states != 36u32 || actions != 27u32 {
            return Err(VardiffError::InvalidQTableBlob);
        }
        let rng = u64_from_le_bytes(slice_subrange(bytes, 14, 22));
        let total = u64_from_le_bytes(slice_subrange(bytes, 22, 30));
        let mut q: Vec<u64> = Vec::with_capacity(CELLS);
        let mut i: usize = 0;
        while i < CELLS
            invariant
                bytes@.len() == QTABLE_BLOB_LEN,
                i <= CELLS,
                q@.len() == i,
                forall|k: int| 0 <= k < i ==> q@[k] == blob_q(bytes@, k),
            decreases CELLS - i,
        {
            let off = QTABLE_HEADER_LEN + 8 * i;
            q.push(u64_from_le_bytes(slice_subrange(bytes, off, off + 8)));
            i = i + 1;
        }
        let mut visits: Vec<u32> = Vec::with_capacity(CELLS);
        let mut j: usize = 0;
        while j < CELLS
            invariant
                bytes@.len() == QTABLE_BLOB_LEN,
                j <= CELLS,
                visits@.len() == j,
                forall|k: int| 0 <= k < j ==> visits@[k] == blob_visits(bytes@, k),
            decreases CELLS - j,
        {
            let off = QTABLE_VISITS_OFFSET + 4 * j;
            visits.push(u32_from_le_bytes(slice_subrange(bytes, off, off + 4)));
            j = j + 1;
        }
        assert(q@ =~= Seq::new(CELLS as nat, |i: int| blob_q(bytes@, i)));
        assert(visits@ =~= Seq::new(CELLS as nat, |i: int| blob_visits(bytes@, i)));
        Ok(
            QTable {
                q,
                visits,
                total,
                rng: if rng == 0 {
                    1
                } else {
                    rng
                },
            },
        )
    }
}

proof fn lemma_encode_len(v: QTableView)
    requires
        v.well_formed(),
    ensures
        spec_encode(v).len() == QTABLE_BLOB_LEN,
{
    lemma_auto_spec_u16_to_from_le_bytes();
    lemma_auto_spec_u32_to_from_le_bytes();
    lemma_auto_spec_u64_to_from_le_bytes();
    lemma_le_u64_seq_len(v.q);
    lemma_le_u32_seq_len(v.visits);
}


proof fn lemma_blob_q_of(b: Seq<u8>, qs: Seq<u64>, i: int)
    requires
        qs.len() == CELLS,
        b.len() == QTABLE_BLOB_LEN,
        0 <= i < CELLS,
        forall|j: int| 0 <= j < 7776 ==> b[30 + j] == #[trigger] le_u64_seq(qs)[j],
    ensures
        blob_q(b, i) == qs[i],
        b.subrange(30 + 8 * i, 38 + 8 * i) == spec_u64_to_le_bytes(qs[i]),
{
    lemma_auto_spec_u64_to_from_le_bytes();
    let sub = b.subrange(30 + 8 * i, 38 + 8 * i);
    assert forall|r: int| 0 <= r < 8 implies sub[r] == spec_u64_to_le_bytes(qs[i])[r] by {
        lemma_le_u64_seq(qs, 8 * i + r);
        assert((8 * i + r) / 8 == i && (8 * i + r) % 8 == r) by (nonlinear_arith)
            requires 0 <= r < 8;
        assert(sub[r] == b[30 + (8 * i + r)]);
    }
    assert(sub =~= spec_u64_to_le_bytes(qs[i]));
}

proof fn lemma_blob_visits_of(b: Seq<u8>, vs: Seq<u32>, i: int)
    requires
        vs.len() == CELLS,
        b.len() == QTABLE_BLOB_LEN,
        0 <= i < CELLS,
        forall|j: int| 0 <= j < 3888 ==> b[7806 + j] == #[trigger] le_u32_seq(vs)[j],
    ensures
        blob_visits(b, i) == vs[i],
        b.subrange(7806 + 4 * i, 7810 + 4 * i) == spec_u32_to_le_bytes(vs[i]),
{
    lemma_auto_spec_u32_to_from_le_bytes();
    let sub = b.subrange(7806 + 4 * i, 7810 + 4 * i);
    assert forall|r: int| 0 <= r < 4 implies sub[r] == spec_u32_to_le_bytes(vs[i])[r] by {
        lemma_le_u32_seq(vs, 4 * i + r);
        assert((4 * i + r) / 4 == i && (4 * i + r) % 4 == r) by (nonlinear_arith)
            requires 0 <= r < 4;
        assert(sub[r] == b[7806 + (4 * i + r)]);
    }
    assert(sub =~= spec_u32_to_le_bytes(vs[i]));
}

/// Decoding an encoded table gives the table back.
pub proof fn lemma_decode_encode(v: QTableView)
    requires
        v.well_formed(),
    ensures
        spec_decode(spec_encode(v)) == Some(v),
{
    lemma_auto_spec_u16_to_from_le_bytes();
    lemma_auto_spec_u32_to_from_le_bytes();
    lemma_auto_spec_u64_to_from_le_bytes();
    lemma_encode_len(v);
    lemma_le_u64_seq_len(v.q);
    lemma_le_u32_seq_len(v.visits);
    let b = spec_encode(v);
    let v16 = spec_u16_to_le_bytes(QTABLE_VERSION);
    let s32 = spec_u32_to_le_bytes(36u32);
    let a32 = spec_u32_to_le_bytes(27u32);
    let r64 = spec_u64_to_le_bytes(v.rng);
    let t64 = spec_u64_to_le_bytes(v.total);
    assert(b.subrange(0, 4) =~= qtable_magic());
    assert(b.subrange(4, 6) =~= v16);
    assert(b.subrange(6, 10) =~= s32);
    assert(b.subrange(10, 14) =~= a32);
    assert(b.subrange(14, 22) =~= r64);
    assert(b.subrange(22, 30) =~= t64);
    assert(blob_header_ok(b));
    let qb = le_u64_seq(v.q);
    let vb = le_u32_seq(v.visits);
    assert forall|j: int| 0 <= j < 7776 implies b[30 + j] == #[trigger] qb[j] by {}
    assert forall|j: int| 0 <= j < 3888 implies b[7806 + j] == #[trigger] vb[j] by {}
    assert forall|i: int| 0 <= i < CELLS implies blob_q(b, i) == v.q[i] by {
        lemma_blob_q_of(b, v.q, i);
    }
    assert forall|i: int| 0 <= i < CELLS implies blob_visits(b, i) == v.visits[i] by {
        lemma_blob_visits_of(b, v.visits, i);
    }
    let d = spec_decode(b).unwrap();
    assert(d.q =~= v.q);
    assert(d.visits =~= v.visits);
}

/// The persisted layout of an encoded table: `b"QPID"`, format version 1
/// (`u16`), 36 states and 27 actions (`u32` each), then the generator state
/// and the decision total (`u64` each), the Q-values (`u64` each, from offset
/// 30) and the visit counts (`u32` each, from offset 7806), all
/// little-endian.
pub proof fn lemma_encode_layout(v: QTableView)
    requires
        v.well_formed(),
    ensures
        spec_encode(v).len() == QTABLE_BLOB_LEN,
        spec_encode(v).subrange(0, 4) == seq![0x51u8, 0x50u8, 0x49u8, 0x44u8],
        spec_encode(v).subrange(4, 6) == spec_u16_to_le_bytes(1u16),
        spec_encode(v).subrange(6, 10) == spec_u32_to_le_bytes(36u32),
        spec_encode(v).subrange(10, 14) == spec_u32_to_le_bytes(27u32),
        spec_encode(v).subrange(14, 22) == spec_u64_to_le_bytes(v.rng),
        spec_encode(v).subrange(22, 30) == spec_u64_to_le_bytes(v.total),
        forall|i: int|
            0 <= i < CELLS ==> #[trigger] spec_encode(v).subrange(30 + 8 * i, 38 + 8 * i)
                == spec_u64_to_le_bytes(v.q[i]),
        forall|i: int|
            0 <= i < CELLS ==> #[trigger] spec_encode(v).subrange(7806 + 4 * i, 7810 + 4 * i)
                == spec_u32_to_le_bytes(v.visits[i]),
{
    lemma_auto_spec_u16_to_from_le_bytes();
    lemma_auto_spec_u32_to_from_le_bytes();
    lemma_auto_spec_u64_to_from_le_bytes();
    lemma_encode_len(v);
    lemma_le_u64_seq_len(v.q);
    lemma_le_u32_seq_len(v.visits);
    let b = spec_encode(v);
    assert(b.subrange(0, 4) =~= seq![0x51u8, 0x50u8, 0x49u8, 0x44u8]);
    assert(b.subrange(4, 6) =~= spec_u16_to_le_bytes(1u16));
    assert(b.subrange(6, 10) =~= spec_u32_to_le_bytes(36u32));
    assert(b.subrange(10, 14) =~= spec_u32_to_le_bytes(27u32));
    assert(b.subrange(14, 22) =~= spec_u64_to_le_bytes(v.rng));
    assert(b.subrange(22, 30) =~= spec_u64_to_le_bytes(v.total));
    let qb = le_u64_seq(v.q);
    let vb = le_u32_seq(v.visits);
    assert forall|j: int| 0 <= j < 7776 implies b[30 + j] == #[trigger] qb[j] by {}
    assert forall|j: int| 0 <= j < 3888 implies b[7806 + j] == #[trigger] vb[j] by {}
    assert forall|i: int| 0 <= i < CELLS implies #[trigger] b.subrange(30 + 8 * i, 38 + 8 * i)
        == spec_u64_to_le_bytes(v.q[i]) by {
        lemma_blob_q_of(b, v.q, i);
    }
    assert forall|i: int| 0 <= i < CELLS implies #[trigger] b.subrange(7806 + 4 * i, 7810 + 4 * i)
        == spec_u32_to_le_bytes(v.visits[i]) by {
        lemma_blob_visits_of(b, v.visits, i);
    }
}

/// Re-encoding a decoded blob gives the blob back, provided its stored
/// generator state is nonzero (a zero state is decoded as one).
pub proof fn lemma_encode_decode(b: Seq<u8>)
    requires
        blob_header_ok(b),
        blob_rng(b) != 0,
    ensures
        spec_decode(b) is Some,
        spec_encode(spec_decode(b).unwrap()) == b,
{
    lemma_auto_spec_u16_to_from_le_bytes();
    lemma_auto_spec_u32_to_from_le_bytes();
    lemma_auto_spec_u64_to_from_le_bytes();
    let d = spec_decode(b).unwrap();
    lemma_encode_len(d);
    lemma_le_u64_seq_len(d.q);
    lemma_le_u32_seq_len(d.visits);
    let e = spec_encode(d);
    let qb = le_u64_seq(d.q);
    let vb = le_u32_seq(d.visits);
    assert(spec_u16_to_le_bytes(QTABLE_VERSION) == b.subrange(4, 6));
    assert(spec_u32_to_le_bytes(36u32) == b.subrange(6, 10));
    assert(spec_u32_to_le_bytes(27u32) == b.subrange(10, 14));
    assert(spec_u64_to_le_bytes(d.rng) == b.subrange(14, 22));
    assert(spec_u64_to_le_bytes(d.total) == b.subrange(22, 30));
    assert forall|j: int| 0 <= j < 7776 implies qb[j] == b[30 + j] by {
        lemma_le_u64_seq(d.q, j);
        let k = j / 8;
        let r = j % 8;
        assert(j == 8 * k + r && 0 <= r < 8 && 0 <= k < CELLS) by (nonlinear_arith)
            requires 0 <= j < 7776, k == j / 8, r == j % 8;
        let sub = b.subrange(30 + 8 * k, 38 + 8 * k);
        assert(d.q[k] == spec_u64_from_le_bytes(sub));
        assert(spec_u64_to_le_bytes(d.q[k]) == sub);
        assert(sub[r] == b[30 + j]);
    }
    assert forall|j: int| 0 <= j < 3888 implies vb[j] == b[7806 + j] by {
        lemma_le_u32_seq(d.visits, j);
        let k = j / 4;
        let r = j % 4;
        assert(j == 4 * k + r && 0 <= r < 4 && 0 <= k < CELLS) by (nonlinear_arith)
            requires 0 <= j < 3888, k == j / 4, r == j % 4;
        let sub = b.subrange(7806 + 4 * k, 7810 + 4 * k);
        assert(d.visits[k] == spec_u32_from_le_bytes(sub));
        assert(spec_u32_to_le_bytes(d.visits[k]) == sub);
        assert(sub[r] == b[7806 + j]);
    }
    assert forall|j: int| 0 <= j < QTABLE_BLOB_LEN implies e[j] == b[j] by {
        if j < 4 {
            assert(b.subrange(0, 4)[j] == b[j]);
        } else if j < 6 {
            assert(b.subrange(4, 6)[j - 4] == b[j]);
        } else if j < 10 {
            assert(b.subrange(6, 10)[j - 6] == b[j]);
        } else if j < 14 {
            assert(b.subrange(10, 14)[j - 10] == b[j]);
        } else if j < 22 {
            assert(b.subrange(14, 22)[j - 14] == b[j]);
        } else if j < 30 {
            assert(b.subrange(22, 30)[j - 22] == b[j]);
        } else if j < 7806 {
            assert(qb[j - 30] == b[j]);
        } else {
            assert(vb[j - 7806] == b[j]);
        }
    }
    assert(e =~= b);
}

/// The confidence gate only ever overrides keep with the learned best
/// action, and only when that very `(state, action)` cell has at least
/// `MIN_CONFIDENT_VISITS` visits and its advantage clears the margin; a
/// best action with enough visits and a clear advantage is always used.
pub proof fn lemma_gate_needs_visits_on_cell(v: QTableView, state: int, best: int, clears_margin: bool)
    ensures
        gated_action(v, state, best, clears_margin) != KEEP_ACTION as int ==> gated_action(
            v,
            state,
            best,
            clears_margin,
        ) == best && v.visits[state * 27 + best] >= MIN_CONFIDENT_VISITS && clears_margin,
        best != KEEP_ACTION as int && v.visits[state * 27 + best] >= MIN_CONFIDENT_VISITS
            && clears_margin ==> gated_action(v, state, best, clears_margin) == best,
        v.visits[state * 27 + best] < MIN_CONFIDENT_VISITS ==> gated_action(
            v,
            state,
            best,
            clears_margin,
        ) == KEEP_ACTION as int,
{
}

/// An action's gain steps are its base-3 digits, most significant first:
/// kp is `a / 9`, ki is `(a / 3) % 3`, kd is `a % 3`; and those digits
/// rebuild the action.
pub proof fn lemma_action_digits_base3(a: int)
    requires
        0 <= a < 27,
    ensures
        action_digits(a).0 == a / 9,
        action_digits(a).1 == (a / 3) % 3,
        action_digits(a).2 == a % 3,
        action_from_digits(action_digits(a)) == a,
        forall|k: int, i: int, d: int|
            0 <= k < 3 && 0 <= i < 3 && 0 <= d < 3 ==> action_from_digits((k, i, d)) == 9 * k + 3
                * i + d,
{
}

/// Guided exploration moves exactly one of the kp (`a / 9`), ki
/// (`(a / 3) % 3`) or kd (`a % 3`) steps of the greedy action, by exactly one.
pub proof fn lemma_explore_moves_one_digit(rng: u64, greedy: int)
    requires
        0 <= greedy < 27,
    ensures
        ({
            let a = explore_outcome(rng, greedy).0;
            let (g0, g1, g2) = (greedy / 9, (greedy / 3) % 3, greedy % 3);
            let (e0, e1, e2) = (a / 9, (a / 3) % 3, a % 3);
            &&& 0 <= a < 27
            &&& {
                ||| (e1 == g1 && e2 == g2 && (e0 == g0 + 1 || g0 == e0 + 1))
                ||| (e0 == g0 && e2 == g2 && (e1 == g1 + 1 || g1 == e1 + 1))
                ||| (e0 == g0 && e1 == g1 && (e2 == g2 + 1 || g2 == e2 + 1))
            }
        }),
{
}

} // verus!
