//! Piecewise-constant decision threshold over the time since the last fire.
//!
//! Rung values are percentages carried as the IEEE-754 bit pattern of an
//! `f64`; the lookup only ever reads the time bounds and hands the chosen
//! value back unchanged.

use vstd::prelude::*;

verus! {

/// Bit pattern of `100.0_f64`: the strict threshold (only very large
/// deviations fire) and the fallback of an empty table.
pub const THRESHOLD_100_PCT: u64 = 0x4059_0000_0000_0000;
/// Bit pattern of `60.0_f64`.
pub const THRESHOLD_60_PCT: u64 = 0x404E_0000_0000_0000;
/// Bit pattern of `50.0_f64`.
pub const THRESHOLD_50_PCT: u64 = 0x4049_0000_0000_0000;
/// Bit pattern of `45.0_f64`.
pub const THRESHOLD_45_PCT: u64 = 0x4046_8000_0000_0000;
/// Bit pattern of `30.0_f64`.
pub const THRESHOLD_30_PCT: u64 = 0x403E_0000_0000_0000;
/// Bit pattern of `15.0_f64`.
pub const THRESHOLD_15_PCT: u64 = 0x402E_0000_0000_0000;

/// A share-rate-blind threshold ladder over `dt_secs`.
///
/// For `dt_secs < dt_threshold` of the first such rung, the rung's value is
/// the threshold. Tables are meant to be sorted ascending by bound and to end
/// with a `u64::MAX` bound so that every input selects a rung.
#[derive(Debug, Clone)]
pub struct StepFunction {
    /// `(dt_threshold, value)` rungs; `value` is the bit pattern of an `f64`
    /// percentage.
    pub table: Vec<(u64, u64)>,
}

/// Value of the first rung whose bound exceeds `dt`, if any.
pub open spec fn rung_value(table: Seq<(u64, u64)>, dt: u64) -> Option<u64>
    decreases table.len(),
{
    if table.len() == 0 {
        None
    } else if dt < table[0].0 {
        Some(table[0].1)
    } else {
        rung_value(table.drop_first(), dt)
    }
}

/// Index of the first rung whose bound exceeds `dt` (`table.len()` if none).
pub open spec fn rung_index(table: Seq<(u64, u64)>, dt: u64) -> int
    decreases table.len(),
{
    if table.len() == 0 {
        0
    } else if dt < table[0].0 {
        0
    } else {
        1 + rung_index(table.drop_first(), dt)
    }
}

/// The threshold a ladder gives at `dt`: the selected rung's value, else the
/// last rung's value, else the strict 100% bar.
pub open spec fn step_threshold(table: Seq<(u64, u64)>, dt: u64) -> u64 {
    match rung_value(table, dt) {
        Some(v) => v,
        None => if table.len() > 0 {
            table.last().1
        } else {
            THRESHOLD_100_PCT
        },
    }
}

/// Rung bounds strictly ascending.
pub open spec fn bounds_ascending(table: Seq<(u64, u64)>) -> bool {
    forall|i: int, j: int| 0 <= i < j < table.len() ==> table[i].0 < table[j].0
}

/// The classic ladder: 100% below 60 s, then 60, 50, 45, 30 and 15%.
pub open spec fn classic_rungs() -> Seq<(u64, u64)> {
    seq![
        (60u64, THRESHOLD_100_PCT),
        (120u64, THRESHOLD_60_PCT),
        (180u64, THRESHOLD_50_PCT),
        (240u64, THRESHOLD_45_PCT),
        (300u64, THRESHOLD_30_PCT),
        (u64::MAX, THRESHOLD_15_PCT),
    ]
}

/// The classic cascade written out by cases of `dt`.
pub open spec fn classic_cascade(dt: u64) -> u64 {
    if dt < 60 {
        THRESHOLD_100_PCT
    } else if dt < 120 {
        THRESHOLD_60_PCT
    } else if dt < 180 {
        THRESHOLD_50_PCT
    } else if dt < 240 {
        THRESHOLD_45_PCT
    } else if dt < 300 {
        THRESHOLD_30_PCT
    } else {
        THRESHOLD_15_PCT
    }
}

proof fn lemma_rung_value_skip(table: Seq<(u64, u64)>, dt: u64, i: int)
    requires
        0 <= i < table.len(),
        dt >= table[i].0,
    ensures
        rung_value(table.skip(i), dt) == rung_value(table.skip(i + 1), dt),
{
    assert(table.skip(i).drop_first() =~= table.skip(i + 1));
}

impl StepFunction {
    /// The classic threshold ladder.
    pub fn classic_table() -> (s: Self)
        ensures
            s.table@ == classic_rungs(),
    {
        let mut table: Vec<(u64, u64)> = Vec::new();
        table.push((60, THRESHOLD_100_PCT));
        table.push((120, THRESHOLD_60_PCT));
        table.push((180, THRESHOLD_50_PCT));
        table.push((240, THRESHOLD_45_PCT));
        table.push((300, THRESHOLD_30_PCT));
        table.push((u64::MAX, THRESHOLD_15_PCT));
        assert(table@ =~= classic_rungs());
        StepFunction { table }
    }

    /// The threshold (bit pattern of an `f64` percentage) for a window of
    /// `dt_secs` seconds since the last fire.
    pub fn threshold(&self, dt_secs: u64) -> (v: u64)
        ensures
            v == step_threshold(self.table@, dt_secs),
            forall|k: int|
                0 <= k < self.table@.len() && dt_secs < #[trigger] self.table@[k].0 && (forall|
                    j: int,
                | 0 <= j < k ==> self.table@[j].0 <= dt_secs) ==> v == self.table@[k].1,
            (forall|k: int| 0 <= k < self.table@.len() ==> self.table@[k].0 <= dt_secs) ==> v
                == if self.table@.len() > 0 {
                self.table@.last().1
            } else {
                THRESHOLD_100_PCT
            },
    {
        proof {
            lemma_threshold_first_rung(self.table@, dt_secs);
        }
        let n = self.table.len();
        let mut i: usize = 0;
        assert(self.table@.skip(0) =~= self.table@);
        while i < n
            invariant
                n == self.table@.len(),
                0 <= i <= n,
                rung_value(self.table@, dt_secs) == rung_value(self.table@.skip(i as int), dt_secs),
            decreases n - i,
        {
            let (bound, value) = self.table[i];
            if dt_secs < bound {
                proof {
                    lemma_threshold_first_rung(self.table@, dt_secs);
                }
                return value;
            }
            proof {
                lemma_rung_value_skip(self.table@, dt_secs, i as int);
            }
            i = i + 1;
        }
        assert(self.table@.skip(n as int).len() == 0);
        if n > 0 {
            let (_, last) = self.table[n - 1];
            last
        } else {
            THRESHOLD_100_PCT
        }
    }
}

/// The classic ladder gives 100% below 60 s, 60% below 120 s, 50% below
/// 180 s, 45% below 240 s, 30% below 300 s and 15% from 300 s on.
pub proof fn lemma_classic_ladder(dt: u64)
    ensures
        step_threshold(classic_rungs(), dt) == classic_cascade(dt),
{
    reveal_with_fuel(rung_value, 7);
    let t = classic_rungs();
    assert(t.drop_first() =~= seq![
        (120u64, THRESHOLD_60_PCT),
        (180u64, THRESHOLD_50_PCT),
        (240u64, THRESHOLD_45_PCT),
        (300u64, THRESHOLD_30_PCT),
        (u64::MAX, THRESHOLD_15_PCT),
    ]);
    assert(t.drop_first().drop_first() =~= seq![
        (180u64, THRESHOLD_50_PCT),
        (240u64, THRESHOLD_45_PCT),
        (300u64, THRESHOLD_30_PCT),
        (u64::MAX, THRESHOLD_15_PCT),
    ]);
    assert(t.drop_first().drop_first().drop_first() =~= seq![
        (240u64, THRESHOLD_45_PCT),
        (300u64, THRESHOLD_30_PCT),
        (u64::MAX, THRESHOLD_15_PCT),
    ]);
    assert(t.drop_first().drop_first().drop_first().drop_first() =~= seq![
        (300u64, THRESHOLD_30_PCT),
        (u64::MAX, THRESHOLD_15_PCT),
    ]);
    assert(t.drop_first().drop_first().drop_first().drop_first().drop_first() =~= seq![
        (u64::MAX, THRESHOLD_15_PCT),
    ]);
    assert(t.drop_first().drop_first().drop_first().drop_first().drop_first().drop_first()
        =~= Seq::<(u64, u64)>::empty());
}

/// Where a rung is selected, its index is in range and the threshold is that
/// rung's value.
pub proof fn lemma_rung_index_selects(table: Seq<(u64, u64)>, dt: u64)
    ensures
        0 <= rung_index(table, dt) <= table.len(),
        rung_index(table, dt) < table.len() <==> rung_value(table, dt).is_some(),
        rung_index(table, dt) < table.len() ==> step_threshold(table, dt) == table[rung_index(
            table,
            dt,
        )].1,
        rung_index(table, dt) < table.len() ==> dt < table[rung_index(table, dt)].0,
        forall|k: int| 0 <= k < rung_index(table, dt) ==> table[k].0 <= dt,
    decreases table.len(),
{
    if table.len() > 0 && dt >= table[0].0 {
        let rest = table.drop_first();
        lemma_rung_index_selects(rest, dt);
        assert forall|k: int| 0 <= k < rung_index(table, dt) implies table[k].0 <= dt by {
            if k > 0 {
                assert(table[k] == rest[k - 1]);
            }
        }
    }
}

/// The threshold at `dt` is the value of the first rung whose bound exceeds
/// `dt`; when no bound does, it is the last rung's value, or 100% for an
/// empty table.
pub proof fn lemma_threshold_first_rung(table: Seq<(u64, u64)>, dt: u64)
    ensures
        forall|k: int|
            0 <= k < table.len() && dt < #[trigger] table[k].0 && (forall|j: int|
                0 <= j < k ==> table[j].0 <= dt) ==> step_threshold(table, dt) == table[k].1,
        (forall|k: int| 0 <= k < table.len() ==> table[k].0 <= dt) ==> step_threshold(table, dt)
            == if table.len() > 0 {
            table.last().1
        } else {
            THRESHOLD_100_PCT
        },
{
    lemma_rung_index_selects(table, dt);
    let r = rung_index(table, dt);
    assert forall|k: int|
        0 <= k < table.len() && dt < #[trigger] table[k].0 && (forall|j: int|
            0 <= j < k ==> table[j].0 <= dt) implies step_threshold(table, dt) == table[k].1 by {
        if r < k {
            assert(table[r].0 <= dt);
        } else if r > k {
            assert(table[k].0 <= dt);
        }
    }
    if forall|k: int| 0 <= k < table.len() ==> table[k].0 <= dt {
        if r < table.len() {
            assert(table[r].0 <= dt);
        }
    }
}

/// A table whose last bound is `u64::MAX` selects a rung for every
/// `dt < u64::MAX`: the ladder is defined by the table for all inputs.
pub proof fn lemma_terminated_table_defined(table: Seq<(u64, u64)>, dt: u64)
    requires
        table.len() > 0,
        table.last().0 == u64::MAX,
        dt < u64::MAX,
    ensures
        rung_value(table, dt).is_some(),
{
    lemma_rung_index_selects(table, dt);
    if rung_index(table, dt) == table.len() {
        assert(table[table.len() - 1].0 <= dt);
    }
}

/// On a ladder with ascending bounds, a longer wait never selects an earlier
/// rung.
pub proof fn lemma_rung_index_monotone(table: Seq<(u64, u64)>, dt1: u64, dt2: u64)
    requires
        bounds_ascending(table),
        dt1 <= dt2,
    ensures
        rung_index(table, dt1) <= rung_index(table, dt2),
    decreases table.len(),
{
    lemma_rung_index_selects(table, dt2);
    if table.len() > 0 && dt1 >= table[0].0 {
        let rest = table.drop_first();
        assert(bounds_ascending(rest)) by {
            assert forall|i: int, j: int| 0 <= i < j < rest.len() implies rest[i].0 < rest[j].0 by {
                assert(rest[i] == table[i + 1]);
                assert(rest[j] == table[j + 1]);
            }
        }
        lemma_rung_index_monotone(rest, dt1, dt2);
        assert(rung_index(table, dt1) == 1 + rung_index(rest, dt1));
        assert(rung_index(table, dt2) == 1 + rung_index(rest, dt2));
    }
}

} // verus!
