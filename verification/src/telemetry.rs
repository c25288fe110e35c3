//! Read-only controller telemetry: each controller publishes its current
//! gains under its channel's user identity, tagged with a per-instance id.
//!
//! A replaced controller (a reconnect creates the new channel before the old
//! one drops) must not clear its successor's entry, so clearing is guarded by
//! the instance id. Gains are carried as `f64` bit patterns.

use vstd::prelude::*;

verus! {

/// The gains published for one identity, and which controller instance
/// published them.
#[derive(Debug, Clone, Copy, PartialEq, Eq, Structural)]
pub struct GainEntry {
    /// Publishing controller instance.
    pub instance: u64,
    /// Proportional gain (bit pattern of an `f64`).
    pub kp_bits: u64,
    /// Integral gain (bit pattern of an `f64`).
    pub ki_bits: u64,
    /// Derivative gain (bit pattern of an `f64`).
    pub kd_bits: u64,
}

/// Registry of published gains, keyed by user identity, together with the
/// counter that hands out controller instance ids.
#[derive(Debug)]
pub struct GainTelemetry {
    entries: Vec<(String, GainEntry)>,
    next_id: u64,
}

/// Abstract state of a [`GainTelemetry`].
pub struct TelemetryView {
    /// Published gains by identity.
    pub gains: Map<Seq<char>, GainEntry>,
    /// The next instance id to hand out.
    pub next_id: u64,
}

/// First entry for `k` in an association list.
pub open spec fn lookup(s: Seq<(Seq<char>, GainEntry)>, k: Seq<char>) -> Option<GainEntry>
    decreases s.len(),
{
    if s.len() == 0 {
        None
    } else if s[0].0 == k {
        Some(s[0].1)
    } else {
        lookup(s.drop_first(), k)
    }
}

/// No identity occurs twice.
pub open spec fn keys_distinct(s: Seq<(Seq<char>, GainEntry)>) -> bool {
    forall|i: int, j: int| 0 <= i < j < s.len() ==> s[i].0 != s[j].0
}

/// The association list read as a map.
pub open spec fn assoc_map(s: Seq<(Seq<char>, GainEntry)>) -> Map<Seq<char>, GainEntry> {
    Map::new(|k: Seq<char>| lookup(s, k) is Some, |k: Seq<char>| lookup(s, k).unwrap())
}

/// The registry after `clear_gains(key, instance)`: the entry is removed
/// only when it was published by `instance`.
pub open spec fn gains_after_clear(
    g: Map<Seq<char>, GainEntry>,
    key: Seq<char>,
    instance: u64,
) -> Map<Seq<char>, GainEntry> {
    if g.dom().contains(key) && g[key].instance == instance {
        g.remove(key)
    } else {
        g
    }
}

spec fn key_views(entries: Seq<(String, GainEntry)>) -> Seq<(Seq<char>, GainEntry)> {
    entries.map_values(|e: (String, GainEntry)| (e.0@, e.1))
}

impl View for GainTelemetry {
    type V = TelemetryView;

    closed spec fn view(&self) -> TelemetryView {
        TelemetryView { gains: assoc_map(key_views(self.entries@)), next_id: self.next_id }
    }
}

impl GainTelemetry {
    /// Internal consistency: one entry per identity.
    pub closed spec fn wf(&self) -> bool {
        keys_distinct(key_views(self.entries@))
    }

    /// An empty registry whose first instance id is 1.
    pub fn new() -> (t: Self)
        ensures
            t.wf(),
            t@.gains == Map::<Seq<char>, GainEntry>::empty(),
            t@.next_id == 1,
    {
        let t = GainTelemetry { entries: Vec::new(), next_id: 1 };
        assert(key_views(t.entries@) =~= Seq::<(Seq<char>, GainEntry)>::empty());
        assert(assoc_map(key_views(t.entries@)) =~= Map::<Seq<char>, GainEntry>::empty());
        t
    }

    /// Index of the entry for `key`, if any.
    fn find(&self, key: &String) -> (idx: Option<usize>)
        requires
            self.wf(),
        ensures
            match idx {
                Some(i) => i < self.entries@.len() && self.entries@[i as int].0@ == key@,
                None => forall|i: int|
                    0 <= i < self.entries@.len() ==> self.entries@[i].0@ != key@,
            },
    {
        let n = self.entries.len();
        let mut i: usize = 0;
        while i < n
            invariant
                n == self.entries@.len(),
                i <= n,
                forall|j: int| 0 <= j < i ==> self.entries@[j].0@ != key@,
            decreases n - i,
        {
            if self.entries[i].0 == *key {
                return Some(i);
            }
            i = i + 1;
        }
        None
    }
}

proof fn lemma_lookup_at(s: Seq<(Seq<char>, GainEntry)>, i: int)
    requires
        keys_distinct(s),
        0 <= i < s.len(),
    ensures
        lookup(s, s[i].0) == Some(s[i].1),
    decreases s.len(),
{
    if i > 0 {
        let r = s.drop_first();
        assert(s[0].0 != s[i].0);
        assert(r[i - 1] == s[i]);
        assert(keys_distinct(r)) by {
            assert forall|a: int, b: int| 0 <= a < b < r.len() implies r[a].0 != r[b].0 by {
                assert(r[a] == s[a + 1] && r[b] == s[b + 1]);
            }
        }
        lemma_lookup_at(r, i - 1);
    }
}

proof fn lemma_lookup_absent(s: Seq<(Seq<char>, GainEntry)>, k: Seq<char>)
    requires
        forall|i: int| 0 <= i < s.len() ==> s[i].0 != k,
    ensures
        lookup(s, k) is None,
    decreases s.len(),
{
    if s.len() > 0 {
        let r = s.drop_first();
        assert forall|i: int| 0 <= i < r.len() implies r[i].0 != k by {
            assert(r[i] == s[i + 1]);
        }
        lemma_lookup_absent(r, k);
    }
}

/// With distinct keys, the map holds `k` exactly at the entry that carries it.
proof fn lemma_map_at(s: Seq<(Seq<char>, GainEntry)>, k: Seq<char>)
    requires
        keys_distinct(s),
    ensures
        (exists|i: int| 0 <= i < s.len() && s[i].0 == k) ==> assoc_map(s).dom().contains(k),
        forall|i: int|
            0 <= i < s.len() && s[i].0 == k ==> assoc_map(s).dom().contains(k) && assoc_map(s)[k]
                == s[i].1,
        (forall|i: int| 0 <= i < s.len() ==> s[i].0 != k) ==> !assoc_map(s).dom().contains(k),
{
    if exists|i: int| 0 <= i < s.len() && s[i].0 == k {
        let i = choose|i: int| 0 <= i < s.len() && s[i].0 == k;
        lemma_lookup_at(s, i);
        assert forall|j: int| 0 <= j < s.len() && s[j].0 == k implies assoc_map(s).dom().contains(
            k,
        ) && assoc_map(s)[k] == s[j].1 by {
            lemma_lookup_at(s, j);
        }
    } else {
        lemma_lookup_absent(s, k);
    }
}

/// Registers a new controller instance: returns the next id and advances
/// the counter (wrapping, like an atomic fetch-add).
pub fn next_instance_id(telemetry: &mut GainTelemetry) -> (id: u64)
    requires
        old(telemetry).wf(),
    ensures
        final(telemetry).wf(),
        id == old(telemetry)@.next_id,
        final(telemetry)@.next_id == old(telemetry)@.next_id.wrapping_add(1),
        final(telemetry)@.gains == old(telemetry)@.gains,
{
    let id = telemetry.next_id;
    telemetry.next_id = telemetry.next_id.wrapping_add(1);
    id
}

/// Publishes the current gains (`f64` bit patterns) of controller
/// `instance` for a user identity, replacing any earlier entry.
pub fn publish_gains(
    telemetry: &mut GainTelemetry,
    key: &str,
    instance: u64,
    kp_bits: u64,
    ki_bits: u64,
    kd_bits: u64,
)
    requires
        old(telemetry).wf(),
    ensures
        final(telemetry).wf(),
        final(telemetry)@.gains == old(telemetry)@.gains.insert(
            key@,
            GainEntry { instance, kp_bits, ki_bits, kd_bits },
        ),
        final(telemetry)@.next_id == old(telemetry)@.next_id,
{
    let k: String = key.to_owned();
    let entry = GainEntry { instance, kp_bits, ki_bits, kd_bits };
    let ghost old_s = key_views(telemetry.entries@);
    match telemetry.find(&k) {
        Some(i) => {
            telemetry.entries.set(i, (k, entry));
            proof {
                let s = key_views(telemetry.entries@);
                assert(s =~= old_s.update(i as int, (key@, entry)));
                assert(keys_distinct(s)) by {
                    assert forall|a: int, b: int| 0 <= a < b < s.len() implies s[a].0 != s[b].0 by {
                        if a != i && b != i {
                            assert(s[a] == old_s[a] && s[b] == old_s[b]);
                        } else if a == i {
                            assert(old_s[a].0 == key@);
                            assert(s[b] == old_s[b]);
                        } else {
                            assert(old_s[b].0 == key@);
                            assert(s[a] == old_s[a]);
                        }
                    }
                }
                assert forall|k2: Seq<char>| true implies #[trigger] assoc_map(s).dom().contains(k2)
                    == old(telemetry)@.gains.insert(key@, entry).dom().contains(k2) && (
                assoc_map(s).dom().contains(k2) ==> assoc_map(s)[k2] == old(telemetry)@.gains.insert(
                    key@,
                    entry,
                )[k2]) by {
                    lemma_map_at(s, k2);
                    lemma_map_at(old_s, k2);
                    if k2 == key@ {
                        assert(s[i as int].0 == k2);
                    } else {
                        if exists|j: int| 0 <= j < old_s.len() && old_s[j].0 == k2 {
                            let j = choose|j: int| 0 <= j < old_s.len() && old_s[j].0 == k2;
                            assert(j != i);
                            assert(s[j] == old_s[j]);
                        } else {
                            assert forall|j: int| 0 <= j < s.len() implies s[j].0 != k2 by {
                                if j != i {
                                    assert(s[j] == old_s[j]);
                                }
                            }
                        }
                    }
                }
                assert(assoc_map(s) =~= old(telemetry)@.gains.insert(key@, entry));
            }
        },
        None => {
            telemetry.entries.push((k, entry));
            proof {
                let s = key_views(telemetry.entries@);
                assert(s =~= old_s.push((key@, entry)));
                let n = old_s.len() as int;
                assert(keys_distinct(s)) by {
                    assert forall|a: int, b: int| 0 <= a < b < s.len() implies s[a].0 != s[b].0 by {
                        assert(s[a] == old_s[a]);
                        if b < n {
                            assert(s[b] == old_s[b]);
                        }
                    }
                }
                assert forall|k2: Seq<char>| true implies #[trigger] assoc_map(s).dom().contains(k2)
                    == old(telemetry)@.gains.insert(key@, entry).dom().contains(k2) && (
                assoc_map(s).dom().contains(k2) ==> assoc_map(s)[k2] == old(telemetry)@.gains.insert(
                    key@,
                    entry,
                )[k2]) by {
                    lemma_map_at(s, k2);
                    lemma_map_at(old_s, k2);
                    if k2 == key@ {
                        assert(s[n].0 == k2);
                    } else {
                        if exists|j: int| 0 <= j < old_s.len() && old_s[j].0 == k2 {
                            let j = choose|j: int| 0 <= j < old_s.len() && old_s[j].0 == k2;
                            assert(s[j] == old_s[j]);
                        } else {
                            assert forall|j: int| 0 <= j < s.len() implies s[j].0 != k2 by {
                                if j < n {
                                    assert(s[j] == old_s[j]);
                                }
                            }
                        }
                    }
                }
                assert(assoc_map(s) =~= old(telemetry)@.gains.insert(key@, entry));
            }
        },
    }
}

/// Current gains (`f64` bit patterns) for a user identity, if a controller
/// has published them.
pub fn gains(telemetry: &GainTelemetry, key: &str) -> (g: Option<(u64, u64, u64)>)
    requires
        telemetry.wf(),
    ensures
        match g {
            Some((kp, ki, kd)) => telemetry@.gains.dom().contains(key@) && telemetry@.gains[key@].kp_bits
                == kp && telemetry@.gains[key@].ki_bits == ki && telemetry@.gains[key@].kd_bits
                == kd,
            None => !telemetry@.gains.dom().contains(key@),
        },
{
    let k: String = key.to_owned();
    let ghost s = key_views(telemetry.entries@);
    proof {
        lemma_map_at(s, key@);
    }
    match telemetry.find(&k) {
        Some(i) => {
            let e = telemetry.entries[i].1;
            assert(s[i as int].0 == key@);
            Some((e.kp_bits, e.ki_bits, e.kd_bits))
        },
        None => {
            assert forall|j: int| 0 <= j < s.len() implies s[j].0 != key@ by {
                assert(s[j].0 == telemetry.entries@[j].0@);
            }
            None
        },
    }
}

/// Clears an identity's entry, but only if it still belongs to `instance`;
/// an entry published by any other instance is left in place.
pub fn clear_gains(telemetry: &mut GainTelemetry, key: &str, instance: u64)
    requires
        old(telemetry).wf(),
    ensures
        final(telemetry).wf(),
        final(telemetry)@.next_id == old(telemetry)@.next_id,
        final(telemetry)@.gains == gains_after_clear(old(telemetry)@.gains, key@, instance),
        old(telemetry)@.gains.dom().contains(key@) && old(telemetry)@.gains[key@].instance
            == instance ==> final(telemetry)@.gains == old(telemetry)@.gains.remove(key@),
        !(old(telemetry)@.gains.dom().contains(key@) && old(telemetry)@.gains[key@].instance
            == instance) ==> final(telemetry)@.gains == old(telemetry)@.gains,
{
    let k: String = key.to_owned();
    let ghost old_s = key_views(telemetry.entries@);
    proof {
        lemma_map_at(old_s, key@);
    }
    match telemetry.find(&k) {
        Some(i) => {
            assert(old_s[i as int].0 == key@);
            if telemetry.entries[i].1.instance == instance {
                telemetry.entries.remove(i);
                proof {
                    let s = key_views(telemetry.entries@);
                    assert(s =~= old_s.remove(i as int));
                    assert(keys_distinct(s)) by {
                        assert forall|a: int, b: int| 0 <= a < b < s.len() implies s[a].0
                            != s[b].0 by {
                            let oa = if a < i {
                                a
                            } else {
                                a + 1
                            };
                            let ob = if b < i {
                                b
                            } else {
                                b + 1
                            };
                            assert(s[a] == old_s[oa] && s[b] == old_s[ob]);
                        }
                    }
                    assert forall|k2: Seq<char>| true implies #[trigger] assoc_map(s).dom().contains(
                        k2,
                    ) == old(telemetry)@.gains.remove(key@).dom().contains(k2) && (
                    assoc_map(s).dom().contains(k2) ==> assoc_map(s)[k2] == old(
                        telemetry,
                    )@.gains.remove(key@)[k2]) by {
                        lemma_map_at(s, k2);
                        lemma_map_at(old_s, k2);
                        if k2 == key@ {
                            assert forall|j: int| 0 <= j < s.len() implies s[j].0 != k2 by {
                                let oj = if j < i {
                                    j
                                } else {
                                    j + 1
                                };
                                assert(s[j] == old_s[oj]);
                            }
                        } else {
                            if exists|j: int| 0 <= j < old_s.len() && old_s[j].0 == k2 {
                                let j = choose|j: int| 0 <= j < old_s.len() && old_s[j].0 == k2;
                                assert(j != i);
                                let nj = if j < i {
                                    j
                                } else {
                                    j - 1
                                };
                                assert(s[nj] == old_s[j]);
                            } else {
                                assert forall|j: int| 0 <= j < s.len() implies s[j].0 != k2 by {
                                    let oj = if j < i {
                                        j
                                    } else {
                                        j + 1
                                    };
                                    assert(s[j] == old_s[oj]);
                                }
                            }
                        }
                    }
                    assert(assoc_map(s) =~= old(telemetry)@.gains.remove(key@));
                }
            }
        },
        None => {
            assert forall|j: int| 0 <= j < old_s.len() implies old_s[j].0 != key@ by {
                assert(old_s[j].0 == telemetry.entries@[j].0@);
            }
        },
    }
}

/// A controller that has been replaced cannot clear its successor's entry:
/// once another instance has published for an identity, clearing on behalf
/// of the old instance leaves the registry unchanged.
pub proof fn lemma_stale_instance_cannot_clear(
    g: Map<Seq<char>, GainEntry>,
    key: Seq<char>,
    entry: GainEntry,
    stale: u64,
)
    requires
        entry.instance != stale,
    ensures
        gains_after_clear(g.insert(key, entry), key, stale) == g.insert(key, entry),
{
}

/// The owner of an entry clears it: publishing then clearing with the same
/// instance leaves no entry for that identity, and every other identity's
/// entry is untouched.
pub proof fn lemma_owner_clears(
    g: Map<Seq<char>, GainEntry>,
    key: Seq<char>,
    entry: GainEntry,
    other: Seq<char>,
)
    requires
        other != key,
    ensures
        !gains_after_clear(g.insert(key, entry), key, entry.instance).dom().contains(key),
        gains_after_clear(g.insert(key, entry), key, entry.instance).dom().contains(other)
            == g.dom().contains(other),
        g.dom().contains(other) ==> gains_after_clear(g.insert(key, entry), key, entry.instance)[other]
            == g[other],
{
}

/// Consecutive instance ids always differ, wrap-around included.
pub proof fn lemma_consecutive_ids_differ(id: u64)
    ensures
        id.wrapping_add(1) != id,
{
}

} // verus!
