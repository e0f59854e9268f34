//! Per-key cooldown state: the timestamp of each key's last successful fire.
//! A key is ready when the caller bypasses cooldowns, when it has never
//! fired, or when strictly more than the cooldown duration has elapsed — a
//! fire exactly at the boundary is still throttled.

use vstd::prelude::*;

verus! {

/// A key is ready to fire again under `m`, at `now`, with `duration` seconds
/// of cooldown, for a caller whose role bypasses cooldowns iff `bypass`.
pub open spec fn ready_spec(
    m: Map<Seq<char>, u64>,
    key: Seq<char>,
    now: u64,
    duration: u64,
    bypass: bool,
) -> bool {
    bypass || !m.dom().contains(key) || now - m[key] > duration
}

spec fn entries_map(s: Seq<(Seq<char>, u64)>) -> Map<Seq<char>, u64>
    decreases s.len(),
{
    if s.len() == 0 {
        Map::empty()
    } else {
        entries_map(s.drop_last()).insert(s.last().0, s.last().1)
    }
}

spec fn keys_unique(s: Seq<(Seq<char>, u64)>) -> bool {
    forall|i: int, j: int| 0 <= i < j < s.len() ==> (#[trigger] s[i]).0 != (#[trigger] s[j]).0
}

proof fn lemma_entries_dom(s: Seq<(Seq<char>, u64)>, k: Seq<char>)
    ensures
        entries_map(s).dom().contains(k) <==> exists|i: int|
            0 <= i < s.len() && (#[trigger] s[i]).0 == k,
    decreases s.len(),
{
    if s.len() > 0 {
        lemma_entries_dom(s.drop_last(), k);
        if s.last().0 == k {
            assert(s[s.len() - 1].0 == k);
        } else if entries_map(s).dom().contains(k) {
            let i = choose|i: int| 0 <= i < s.drop_last().len() && (#[trigger] s.drop_last()[i]).0
                == k;
            assert(s[i].0 == k);
        } else {
            if exists|i: int| 0 <= i < s.len() && (#[trigger] s[i]).0 == k {
                let i = choose|i: int| 0 <= i < s.len() && (#[trigger] s[i]).0 == k;
                assert(i < s.len() - 1);
                assert(s.drop_last()[i].0 == k);
            }
        }
    }
}

proof fn lemma_entries_value(s: Seq<(Seq<char>, u64)>, i: int)
    requires
        0 <= i < s.len(),
        forall|j: int| i < j < s.len() ==> (#[trigger] s[j]).0 != s[i].0,
    ensures
        entries_map(s).dom().contains(s[i].0),
        entries_map(s)[s[i].0] == s[i].1,
    decreases s.len(),
{
    if i == s.len() - 1 {
        assert(s.last() == s[i]);
    } else {
        assert(s.last().0 != s[i].0);
        assert forall|j: int| i < j < s.drop_last().len() implies (#[trigger] s.drop_last()[j]).0
            != s.drop_last()[i].0 by {
            assert(s.drop_last()[j] == s[j]);
        }
        lemma_entries_value(s.drop_last(), i);
    }
}

proof fn lemma_entries_update(s: Seq<(Seq<char>, u64)>, i: int, now: u64)
    requires
        keys_unique(s),
        0 <= i < s.len(),
    ensures
        entries_map(s.update(i, (s[i].0, now))) == entries_map(s).insert(s[i].0, now),
    decreases s.len(),
{
    let k = s[i].0;
    let t = s.update(i, (k, now));
    if i == s.len() - 1 {
        assert(t.drop_last() =~= s.drop_last());
        assert(t.last() == (k, now));
        assert(entries_map(s.drop_last()).insert(k, s[i].1).insert(k, now) =~= entries_map(
            s.drop_last(),
        ).insert(k, now));
    } else {
        assert(t.drop_last() =~= s.drop_last().update(i, (k, now)));
        assert(t.last() == s.last());
        assert(s.drop_last()[i] == s[i]);
        assert(keys_unique(s.drop_last())) by {
            assert forall|p: int, q: int|
                0 <= p < q < s.drop_last().len() implies (#[trigger] s.drop_last()[p]).0 != (
            #[trigger] s.drop_last()[q]).0 by {
                assert(s.drop_last()[p] == s[p]);
                assert(s.drop_last()[q] == s[q]);
            }
        }
        lemma_entries_update(s.drop_last(), i, now);
        assert(s.last().0 != k);
        assert(entries_map(s.drop_last()).insert(k, now).insert(s.last().0, s.last().1)
            =~= entries_map(s.drop_last()).insert(s.last().0, s.last().1).insert(k, now));
    }
}

/// Last-fired timestamps, keyed by command name or regex pattern.
pub struct CooldownTracker {
    entries: Vec<(String, u64)>,
}

impl View for CooldownTracker {
    type V = Map<Seq<char>, u64>;

    closed spec fn view(&self) -> Map<Seq<char>, u64> {
        entries_map(crate::table::assoc_view(self.entries@))
    }
}

impl CooldownTracker {
    /// No key on record: one binding per key, scanned linearly.
    pub closed spec fn wf(&self) -> bool {
        keys_unique(crate::table::assoc_view(self.entries@))
    }

    pub fn new() -> (r: CooldownTracker)
        ensures
            r@ == Map::<Seq<char>, u64>::empty(),
            r.wf(),
    {
        CooldownTracker { entries: Vec::new() }
    }

    /// Index of the binding for `key`, if any.
    fn find(&self, key: &String) -> (r: Option<usize>)
        ensures
            match r {
                Some(i) => i < self.entries@.len() && self.entries@[i as int].0@ == key@,
                None => forall|i: int|
                    0 <= i < self.entries@.len() ==> (#[trigger] self.entries@[i]).0@ != key@,
            },
    {
        let mut i: usize = 0;
        while i < self.entries.len()
            invariant
                i <= self.entries.len(),
                forall|j: int| 0 <= j < i ==> (#[trigger] self.entries@[j]).0@ != key@,
            decreases self.entries.len() - i,
        {
            if self.entries[i].0 == *key {
                return Some(i);
            }
            i += 1;
        }
        None
    }

    /// Whether `key` may fire at `now`. Reads only; readiness is a function
    /// of the recorded timestamps alone, so asking never changes the answer.
    pub fn is_ready(&self, key: &String, now: u64, duration: u64, bypass: bool) -> (b: bool)
        requires
            self.wf(),
        ensures
            b == ready_spec(self@, key@, now, duration, bypass),
    {
        let ghost sv = crate::table::assoc_view(self.entries@);
        if bypass {
            return true;
        }
        match self.find(key) {
            None => {
                proof {
                    lemma_entries_dom(sv, key@);
                    assert forall|i: int| 0 <= i < sv.len() implies (#[trigger] sv[i]).0 != key@
                        by {
                        assert(sv[i] == (self.entries@[i].0@, self.entries@[i].1));
                    }
                }
                true
            },
            Some(i) => {
                let last = self.entries[i].1;
                proof {
                    assert(sv[i as int] == (self.entries@[i as int].0@, self.entries@[i as int].1));
                    let iv = i as int;
                    assert forall|j: int| i < j < sv.len() implies (#[trigger] sv[j]).0 != sv[iv].0 by {
                        assert(sv[j] == (self.entries@[j].0@, self.entries@[j].1));
                    }
                    lemma_entries_value(sv, i as int);
                }
                now > last && now - last > duration
            },
        }
    }

    /// Records a successful fire of `key` at `now`, overwriting any earlier
    /// record for the same key.
    pub fn mark_fired(&mut self, key: &String, now: u64)
        requires
            old(self).wf(),
        ensures
            final(self).wf(),
            final(self)@ == old(self)@.insert(key@, now),
    {
        let ghost sv = crate::table::assoc_view(self.entries@);
        match self.find(key) {
            Some(i) => {
                self.entries[i].1 = now;
                proof {
                    let tv = crate::table::assoc_view(self.entries@);
                    assert(tv =~= sv.update(i as int, (sv[i as int].0, now))) by {
                        assert forall|j: int| 0 <= j < tv.len() implies tv[j] == sv.update(
                            i as int,
                            (sv[i as int].0, now),
                        )[j] by {
                            assert(tv[j] == (self.entries@[j].0@, self.entries@[j].1));
                            assert(sv[j] == (old(self).entries@[j].0@, old(self).entries@[j].1));
                        }
                    }
                    assert(sv[i as int].0 == key@);
                    lemma_entries_update(sv, i as int, now);
                    assert(keys_unique(tv));
                }
            },
            None => {
                let k = key.clone();
                self.entries.push((k, now));
                proof {
                    let tv = crate::table::assoc_view(self.entries@);
                    assert(tv.drop_last() =~= sv);
                    assert(tv.last() == (key@, now));
                    assert forall|i: int| 0 <= i < sv.len() implies (#[trigger] sv[i]).0 != key@
                        by {
                        assert(sv[i] == (old(self).entries@[i].0@, old(self).entries@[i].1));
                    }
                    assert forall|p: int, q: int|
                        0 <= p < q < tv.len() implies (#[trigger] tv[p]).0 != (#[trigger] tv[q]).0
                        by {
                        assert(tv[p] == tv.drop_last()[p]);
                        if q < tv.len() - 1 {
                            assert(tv[q] == tv.drop_last()[q]);
                        } else {
                            assert(tv[q] == tv.last());
                        }
                    }
                    assert(keys_unique(tv));
                }
            },
        }
    }
}

/// Of two recorded fires of the same key, the more recent is authoritative:
/// recording at `t1` and then at a later `t2` leaves the same state as
/// recording at `t2` alone.
pub proof fn lemma_latest_mark_wins(m: Map<Seq<char>, u64>, k: Seq<char>, t1: u64, t2: u64)
    requires
        t1 <= t2,
    ensures
        m.insert(k, t1).insert(k, t2) == m.insert(k, t2),
        m.insert(k, t1).insert(k, t2)[k] == t2,
{
    assert(m.insert(k, t1).insert(k, t2) =~= m.insert(k, t2));
}

} // verus!
