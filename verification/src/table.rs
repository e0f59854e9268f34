//! String-keyed association tables. Configuration maps are kept as vectors of
//! pairs scanned in order; the first entry with a matching key wins, so a
//! table with distinct keys behaves as a finite map.

use vstd::prelude::*;

verus! {

/// First value bound to `k`, scanning left to right.
pub open spec fn lookup<V>(m: Seq<(Seq<char>, V)>, k: Seq<char>) -> Option<V>
    decreases m.len(),
{
    if m.len() == 0 {
        None
    } else if m[0].0 == k {
        Some(m[0].1)
    } else {
        lookup(m.drop_first(), k)
    }
}

/// The table seen through the views of its keys and values.
pub open spec fn assoc_view<T: View>(m: Seq<(String, T)>) -> Seq<(Seq<char>, T::V)> {
    m.map_values(|p: (String, T)| (p.0@, p.1@))
}

pub proof fn lemma_lookup_skip<V>(m: Seq<(Seq<char>, V)>, k: Seq<char>, i: int)
    requires
        0 <= i <= m.len(),
        forall|j: int| 0 <= j < i ==> (#[trigger] m[j]).0 != k,
    ensures
        lookup(m, k) == lookup(m.skip(i), k),
    decreases i,
{
    if i == 0 {
        assert(m.skip(0) =~= m);
    } else {
        assert(m[0].0 != k);
        assert forall|j: int| 0 <= j < i - 1 implies (#[trigger] m.drop_first()[j]).0 != k by {
            assert(m.drop_first()[j] == m[j + 1]);
        }
        lemma_lookup_skip(m.drop_first(), k, i - 1);
        assert(m.drop_first().skip(i - 1) =~= m.skip(i));
    }
}

/// When `m` is scanned at position `i` the remainder decides the lookup.
pub proof fn lemma_lookup_at<V>(m: Seq<(Seq<char>, V)>, k: Seq<char>, i: int)
    requires
        0 <= i < m.len(),
        forall|j: int| 0 <= j < i ==> (#[trigger] m[j]).0 != k,
    ensures
        m[i].0 == k ==> lookup(m, k) == Some(m[i].1),
        m[i].0 != k ==> lookup(m, k) == lookup(m.skip(i + 1), k),
{
    lemma_lookup_skip(m, k, i);
    assert(m.skip(i)[0] == m[i]);
    if m[i].0 != k {
        assert(m.skip(i).drop_first() =~= m.skip(i + 1));
    }
}

/// Borrow of the first value bound to `k`, by scanning in order.
pub fn assoc_get<'a, T: View>(m: &'a Vec<(String, T)>, k: &String) -> (r: Option<&'a T>)
    ensures
        match r {
            Some(v) => lookup(assoc_view(m@), k@) == Some(v@),
            None => lookup(assoc_view(m@), k@) is None,
        },
{
    let ghost mv = assoc_view(m@);
    let mut i: usize = 0;
    while i < m.len()
        invariant
            i <= m.len(),
            mv == assoc_view(m@),
            mv.len() == m.len(),
            forall|j: int| 0 <= j < i ==> (#[trigger] mv[j]).0 != k@,
        decreases m.len() - i,
    {
        proof {
            assert(mv[i as int] == (m@[i as int].0@, m@[i as int].1@));
        }
        if m[i].0 == *k {
            proof {
                lemma_lookup_at(mv, k@, i as int);
            }
            return Some(&m[i].1);
        }
        i += 1;
    }
    proof {
        lemma_lookup_skip(mv, k@, mv.len() as int);
        assert(mv.skip(mv.len() as int) =~= Seq::<(Seq<char>, T::V)>::empty());
    }
    None
}

/// A key that occurs in the table is found.
pub proof fn lemma_lookup_exists<V>(m: Seq<(Seq<char>, V)>, k: Seq<char>)
    requires
        exists|i: int| 0 <= i < m.len() && (#[trigger] m[i]).0 == k,
    ensures
        lookup(m, k) is Some,
    decreases m.len(),
{
    if m.len() > 0 && m[0].0 != k {
        let i = choose|i: int| 0 <= i < m.len() && (#[trigger] m[i]).0 == k;
        assert(m.drop_first()[i - 1] == m[i]);
        lemma_lookup_exists(m.drop_first(), k);
    }
}

/// What is found is an entry of the table.
pub proof fn lemma_lookup_found<V>(m: Seq<(Seq<char>, V)>, k: Seq<char>)
    requires
        lookup(m, k) is Some,
    ensures
        exists|i: int|
            0 <= i < m.len() && #[trigger] m[i] == (k, lookup(m, k)->0),
    decreases m.len(),
{
    if m.len() > 0 {
        if m[0].0 == k {
            assert(m[0] == (k, lookup(m, k)->0));
        } else {
            lemma_lookup_found(m.drop_first(), k);
            let i = choose|i: int|
                0 <= i < m.drop_first().len() && #[trigger] m.drop_first()[i] == (
                    k,
                    lookup(m.drop_first(), k)->0,
                );
            assert(m[i + 1] == (k, lookup(m, k)->0));
        }
    }
}

} // verus!
