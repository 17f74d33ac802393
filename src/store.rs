use vstd::prelude::*;

use crate::record::RecordForLedger;
use crate::schedule::ScheduleForLedger;

verus! {

/// An entity identified by an unsigned key.
pub trait Keyed: View + Sized {
    spec fn key_of(v: Self::V) -> u32;

    fn key(&self) -> (r: u32)
        ensures
            r == Self::key_of(self@),
    ;
}

impl Keyed for RecordForLedger {
    open spec fn key_of(v: crate::record::RecordModel) -> u32 {
        v.id
    }

    fn key(&self) -> (r: u32) {
        self.id
    }
}

impl Keyed for ScheduleForLedger {
    open spec fn key_of(v: crate::schedule::ScheduleModel) -> u32 {
        v.id
    }

    fn key(&self) -> (r: u32) {
        self.id
    }
}

/// The views of the entities, in order.
pub open spec fn views<T: View>(s: Seq<T>) -> Seq<T::V> {
    s.map_values(|t: T| t@)
}

/// Keys strictly ascending: each key at most once, in key order.
pub open spec fn ascending<V, T: Keyed<V = V>>(s: Seq<V>) -> bool {
    forall|i: int, j: int| 0 <= i < j < s.len() ==> T::key_of(#[trigger] s[i]) < T::key_of(#[trigger] s[j])
}

/// Whether some entity of `s` has key `k`.
pub open spec fn has_key<V, T: Keyed<V = V>>(s: Seq<V>, k: u32) -> bool {
    exists|i: int| 0 <= i < s.len() && T::key_of(#[trigger] s[i]) == k
}

/// The entities of `s` by key.
pub open spec fn keyed<V, T: Keyed<V = V>>(s: Seq<V>) -> Map<u32, V> {
    Map::new(
        |k: u32| has_key::<V, T>(s, k),
        |k: u32| s[choose|i: int| 0 <= i < s.len() && T::key_of(#[trigger] s[i]) == k],
    )
}

/// In a key-ascending sequence, the map by key sends each entity's key to it.
pub proof fn lemma_keyed_at<V, T: Keyed<V = V>>(s: Seq<V>, i: int)
    requires
        ascending::<V, T>(s),
        0 <= i < s.len(),
    ensures
        keyed::<V, T>(s).contains_key(T::key_of(s[i])),
        keyed::<V, T>(s)[T::key_of(s[i])] == s[i],
{
    let k = T::key_of(s[i]);
    assert(has_key::<V, T>(s, k));
    let j = choose|j: int| 0 <= j < s.len() && T::key_of(#[trigger] s[j]) == k;
    if j < i {
        assert(T::key_of(s[j]) < T::key_of(s[i]));
    } else if i < j {
        assert(T::key_of(s[i]) < T::key_of(s[j]));
    }
}

/// Puts `x` in its place by key, replacing an entity with the same key.
pub fn insert_keyed<T: Keyed>(v: &mut Vec<T>, x: T)
    requires
        ascending::<T::V, T>(views(old(v)@)),
    ensures
        ascending::<T::V, T>(views(final(v)@)),
        keyed::<T::V, T>(views(final(v)@)) == keyed::<T::V, T>(views(old(v)@)).insert(
            T::key_of(x@),
            x@,
        ),
{
    let ghost s = views(old(v)@);
    let k = x.key();
    let n = v.len();
    let mut p: usize = 0;
    while p < n && v[p].key() < k
        invariant
            n == v@.len() == s.len(),
            s == views(v@),
            p <= n,
            forall|j: int| 0 <= j < p ==> T::key_of(#[trigger] s[j]) < k,
        decreases n - p,
    {
        p = p + 1;
    }
    let ghost xv = x@;
    let ghost m = keyed::<T::V, T>(s).insert(k, xv);
    if p < n && v[p].key() == k {
        v.set(p, x);
        let ghost t = views(v@);
        assert(t =~= s.update(p as int, xv));
        assert(ascending::<T::V, T>(t)) by {
            assert forall|i: int, j: int| 0 <= i < j < t.len() implies T::key_of(#[trigger] t[i])
                < T::key_of(#[trigger] t[j]) by {
                assert(T::key_of(s[i]) < T::key_of(s[j]) || i == p || j == p);
                if i == p {
                    assert(T::key_of(s[i]) < T::key_of(s[j]));
                }
                if j == p {
                    assert(T::key_of(s[i]) < T::key_of(s[j]));
                }
            }
        }
        assert(keyed::<T::V, T>(t) =~= m) by {
            assert forall|q: u32| #[trigger] keyed::<T::V, T>(t).contains_key(q) <==> m.contains_key(q) by {
                if has_key::<T::V, T>(t, q) {
                    let i = choose|i: int| 0 <= i < t.len() && T::key_of(#[trigger] t[i]) == q;
                    if i != p {
                        assert(T::key_of(s[i]) == q);
                    }
                }
                if has_key::<T::V, T>(s, q) {
                    let i = choose|i: int| 0 <= i < s.len() && T::key_of(#[trigger] s[i]) == q;
                    if i != p {
                        assert(T::key_of(t[i]) == q);
                    } else {
                        assert(T::key_of(t[p as int]) == q);
                    }
                }
                if q == k {
                    assert(T::key_of(t[p as int]) == q);
                }
            }
            assert forall|q: u32| #[trigger] keyed::<T::V, T>(t).contains_key(q) implies keyed::<T::V, T>(
                t,
            )[q] == m[q] by {
                let i = choose|i: int| 0 <= i < t.len() && T::key_of(#[trigger] t[i]) == q;
                lemma_keyed_at::<T::V, T>(t, i);
                assert(T::key_of(t[p as int]) == k);
                if i != p {
                    if i < p {
                        assert(T::key_of(t[i]) < T::key_of(t[p as int]));
                    } else {
                        assert(T::key_of(t[p as int]) < T::key_of(t[i]));
                    }
                    lemma_keyed_at::<T::V, T>(s, i);
                }
            }
        }
    } else {
        assert(p < n ==> T::key_of(s[p as int]) > k) by {
            if p < n {
                assert(s[p as int] == v@[p as int]@);
            }
        }
        v.insert(p, x);
        let ghost t = views(v@);
        assert(t =~= s.insert(p as int, xv));
        assert(ascending::<T::V, T>(t)) by {
            assert forall|i: int, j: int| 0 <= i < j < t.len() implies T::key_of(#[trigger] t[i])
                < T::key_of(#[trigger] t[j]) by {
                if j < p {
                    assert(T::key_of(s[i]) < T::key_of(s[j]));
                } else if j == p {
                    assert(T::key_of(s[i]) < k);
                } else if i < p {
                    assert(T::key_of(s[i]) < k);
                    if j - 1 > p {
                        assert(T::key_of(s[p as int]) < T::key_of(s[j - 1]));
                    }
                    assert(t[j] == s[j - 1]);
                } else if i == p {
                    if j - 1 > p {
                        assert(T::key_of(s[p as int]) < T::key_of(s[j - 1]));
                    }
                    assert(T::key_of(s[j - 1]) > k);
                } else {
                    assert(T::key_of(s[i - 1]) < T::key_of(s[j - 1]));
                }
            }
        }
        assert(keyed::<T::V, T>(t) =~= m) by {
            assert forall|q: u32| #[trigger] keyed::<T::V, T>(t).contains_key(q) <==> m.contains_key(q) by {
                if has_key::<T::V, T>(t, q) {
                    let i = choose|i: int| 0 <= i < t.len() && T::key_of(#[trigger] t[i]) == q;
                    if i < p {
                        assert(T::key_of(s[i]) == q);
                    } else if i > p {
                        assert(T::key_of(s[i - 1]) == q);
                    }
                }
                if has_key::<T::V, T>(s, q) {
                    let i = choose|i: int| 0 <= i < s.len() && T::key_of(#[trigger] s[i]) == q;
                    if i < p {
                        assert(T::key_of(t[i]) == q);
                    } else {
                        assert(T::key_of(t[i + 1]) == q);
                    }
                }
                if q == k {
                    assert(T::key_of(t[p as int]) == q);
                }
            }
            assert forall|q: u32| #[trigger] keyed::<T::V, T>(t).contains_key(q) implies keyed::<T::V, T>(
                t,
            )[q] == m[q] by {
                let i = choose|i: int| 0 <= i < t.len() && T::key_of(#[trigger] t[i]) == q;
                lemma_keyed_at::<T::V, T>(t, i);
                assert(T::key_of(t[p as int]) == k);
                if i < p {
                    assert(T::key_of(t[i]) < T::key_of(t[p as int]));
                    lemma_keyed_at::<T::V, T>(s, i);
                } else if i > p {
                    assert(T::key_of(t[p as int]) < T::key_of(t[i]));
                    lemma_keyed_at::<T::V, T>(s, i - 1);
                }
            }
        }
    }
}

} // verus!
