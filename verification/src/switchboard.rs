//! The switchboard: which connections should be sending traffic to which
//! other connections, plus the block relation between users.

use vstd::prelude::*;

use crate::messages::{RoomId, Subscription, UserId};
use crate::sessions::{clone_join_state, clone_opt_string, clone_subscription, JoinKind, JoinState, Session};

verus! {

/// An identifier that can be compared and duplicated, with both operations
/// pinned to its mathematical view. The switchboard indexes sessions and
/// users by such identifiers.
pub trait Ident: View + Sized {
    fn id_eq(&self, other: &Self) -> (r: bool)
        ensures
            r == (self@ == other@),
    ;

    fn id_clone(&self) -> (r: Self)
        ensures
            r == *self,
    ;
}

impl Ident for String {
    fn id_eq(&self, other: &Self) -> (r: bool)
        ensures
            r == (self@ == other@),
    {
        self.eq(other)
    }

    fn id_clone(&self) -> (r: Self)
        ensures
            r == *self,
    {
        self.clone()
    }
}

impl Ident for u64 {
    fn id_eq(&self, other: &Self) -> (r: bool)
        ensures
            r == (self@ == other@),
    {
        *self == *other
    }

    fn id_clone(&self) -> (r: Self)
        ensures
            r == *self,
    {
        *self
    }
}

/// The values paired with key `k` in a sequence of pairs, in order.
pub open spec fn assoc_values<A: View, B: View>(s: Seq<(A, B)>, k: A::V) -> Seq<B::V>
    decreases s.len(),
{
    if s.len() == 0 {
        Seq::empty()
    } else {
        assoc_values(s.drop_last(), k) + if s.last().0@ == k {
            seq![s.last().1@]
        } else {
            Seq::empty()
        }
    }
}

/// The sequence with every occurrence of `x` removed.
pub open spec fn without<T>(s: Seq<T>, x: T) -> Seq<T>
    decreases s.len(),
{
    if s.len() == 0 {
        s
    } else {
        without(s.drop_last(), x) + if s.last() == x {
            Seq::empty()
        } else {
            seq![s.last()]
        }
    }
}

/// The pair sequence with every pair viewing as `(a, b)` removed.
pub open spec fn drop_pair<A: View, B: View>(s: Seq<(A, B)>, a: A::V, b: B::V) -> Seq<(A, B)>
    decreases s.len(),
{
    if s.len() == 0 {
        s
    } else {
        drop_pair(s.drop_last(), a, b) + if s.last().0@ == a && s.last().1@ == b {
            Seq::empty()
        } else {
            seq![s.last()]
        }
    }
}

/// The pair sequence with every pair whose first component views as `a`
/// removed.
pub open spec fn drop_key<A: View, B: View>(s: Seq<(A, B)>, a: A::V) -> Seq<(A, B)>
    decreases s.len(),
{
    if s.len() == 0 {
        s
    } else {
        drop_key(s.drop_last(), a) + if s.last().0@ == a {
            Seq::empty()
        } else {
            seq![s.last()]
        }
    }
}

/// The pair sequence with every pair whose second component views as `b`
/// removed.
pub open spec fn drop_sec<A: View, B: View>(s: Seq<(A, B)>, b: B::V) -> Seq<(A, B)>
    decreases s.len(),
{
    if s.len() == 0 {
        s
    } else {
        drop_sec(s.drop_last(), b) + if s.last().1@ == b {
            Seq::empty()
        } else {
            seq![s.last()]
        }
    }
}

proof fn lemma_contains_append_one<T>(a: Seq<T>, x: T, y: T)
    ensures
        (a + seq![x]).contains(y) <==> (a.contains(y) || y == x),
{
    let c = a + seq![x];
    if a.contains(y) {
        let i = choose|i: int| 0 <= i < a.len() && a[i] == y;
        assert(c[i] == y);
    }
    if y == x {
        assert(c[a.len() as int] == y);
    }
    if c.contains(y) {
        let i = choose|i: int| 0 <= i < c.len() && c[i] == y;
        if i < a.len() {
            assert(a[i] == y);
        }
    }
}

proof fn lemma_contains_append_empty<T>(a: Seq<T>, y: T)
    ensures
        (a + Seq::<T>::empty()).contains(y) <==> a.contains(y),
{
    assert(a + Seq::<T>::empty() =~= a);
}

pub proof fn lemma_without_contains<T>(s: Seq<T>, x: T, y: T)
    ensures
        without(s, x).contains(y) <==> (s.contains(y) && y != x),
    decreases s.len(),
{
    if s.len() == 0 {
    } else {
        let pre = s.drop_last();
        lemma_without_contains(pre, x, y);
        if s.last() == x {
            lemma_contains_append_empty(without(pre, x), y);
        } else {
            lemma_contains_append_one(without(pre, x), s.last(), y);
        }
        assert(s.contains(y) <==> (pre.contains(y) || s.last() == y)) by {
            lemma_contains_append_one(pre, s.last(), y);
            assert(pre + seq![s.last()] =~= s);
        }
    }
}

proof fn lemma_without_nodup<T>(s: Seq<T>, x: T)
    requires
        forall|i: int, j: int| #![trigger s[i], s[j]] 0 <= i < j < s.len() ==> s[i] != s[j],
    ensures
        forall|i: int, j: int|
            #![trigger without(s, x)[i], without(s, x)[j]]
            0 <= i < j < without(s, x).len() ==> without(s, x)[i] != without(s, x)[j],
    decreases s.len(),
{
    if s.len() == 0 {
    } else {
        let pre = s.drop_last();
        assert(forall|i: int, j: int|
            #![trigger pre[i], pre[j]]
            0 <= i < j < pre.len() ==> pre[i] != pre[j]);
        lemma_without_nodup(pre, x);
        let d = without(pre, x);
        if s.last() == x {
            assert(without(s, x) =~= d);
        } else {
            assert(without(s, x) =~= d + seq![s.last()]);
            assert forall|i: int, j: int|
                0 <= i < j < without(s, x).len() implies without(s, x)[i] != without(
                s,
                x,
            )[j] by {
                if j == d.len() {
                    if without(s, x)[i] == s.last() {
                        assert(d[i] == s.last());
                        assert(d.contains(s.last()));
                        lemma_without_contains(pre, x, s.last());
                        let k = choose|k: int| 0 <= k < pre.len() && pre[k] == s.last();
                        assert(s[k] == s[s.len() - 1]);
                    }
                }
            }
        }
    }
}

proof fn lemma_assoc_values_push<A: View, B: View>(s: Seq<(A, B)>, p: (A, B), k: A::V)
    ensures
        p.0@ == k ==> assoc_values(s.push(p), k) == assoc_values(s, k).push(p.1@),
        p.0@ != k ==> assoc_values(s.push(p), k) == assoc_values(s, k),
{
    let t = s.push(p);
    assert(t.drop_last() =~= s);
    if p.0@ == k {
        assert(assoc_values(s, k) + seq![p.1@] =~= assoc_values(s, k).push(p.1@));
    } else {
        assert(assoc_values(s, k) + Seq::<B::V>::empty() =~= assoc_values(s, k));
    }
}

proof fn lemma_assoc_drop_pair<A: View, B: View>(s: Seq<(A, B)>, a: A::V, b: B::V, k2: A::V)
    ensures
        k2 == a ==> assoc_values(drop_pair(s, a, b), k2) == without(assoc_values(s, k2), b),
        k2 != a ==> assoc_values(drop_pair(s, a, b), k2) == assoc_values(s, k2),
    decreases s.len(),
{
    if s.len() == 0 {
        if k2 == a {
            assert(without(assoc_values(s, k2), b) =~= Seq::<B::V>::empty());
        }
    } else {
        let pre = s.drop_last();
        let p = s.last();
        lemma_assoc_drop_pair(pre, a, b, k2);
        let d = drop_pair(pre, a, b);
        if p.0@ == a && p.1@ == b {
            assert(drop_pair(s, a, b) =~= d);
            if k2 == a {
                // the dropped pair is exactly an occurrence of b at key a
                assert(assoc_values(s, k2) =~= assoc_values(pre, k2) + seq![p.1@]);
                assert(without(assoc_values(s, k2), b) =~= without(assoc_values(pre, k2), b))
                    by {
                    assert((assoc_values(pre, k2) + seq![p.1@]).drop_last() =~= assoc_values(
                        pre,
                        k2,
                    ));
                }
            } else {
                assert(assoc_values(s, k2) =~= assoc_values(pre, k2));
            }
        } else {
            assert(drop_pair(s, a, b) =~= d + seq![p]);
            lemma_assoc_values_push(d, p, k2);
            assert(d.push(p) =~= d + seq![p]);
            if k2 == a {
                if p.0@ == k2 {
                    // p stays and carries a value other than b
                    assert(assoc_values(s, k2) =~= assoc_values(pre, k2) + seq![p.1@]);
                    assert(without(assoc_values(s, k2), b) =~= without(
                        assoc_values(pre, k2),
                        b,
                    ) + seq![p.1@]) by {
                        assert((assoc_values(pre, k2) + seq![p.1@]).drop_last() =~= assoc_values(
                            pre,
                            k2,
                        ));
                    }
                    assert(assoc_values(drop_pair(s, a, b), k2) =~= assoc_values(d, k2) + seq![
                        p.1@,
                    ]);
                } else {
                    assert(assoc_values(s, k2) =~= assoc_values(pre, k2));
                    assert(assoc_values(drop_pair(s, a, b), k2) =~= assoc_values(d, k2));
                }
            } else {
                if p.0@ == k2 {
                    assert(assoc_values(s, k2) =~= assoc_values(pre, k2) + seq![p.1@]);
                    assert(assoc_values(drop_pair(s, a, b), k2) =~= assoc_values(d, k2) + seq![
                        p.1@,
                    ]);
                } else {
                    assert(assoc_values(s, k2) =~= assoc_values(pre, k2));
                    assert(assoc_values(drop_pair(s, a, b), k2) =~= assoc_values(d, k2));
                }
            }
        }
    }
}

proof fn lemma_assoc_drop_key<A: View, B: View>(s: Seq<(A, B)>, a: A::V, k2: A::V)
    ensures
        k2 == a ==> assoc_values(drop_key(s, a), k2) == Seq::<B::V>::empty(),
        k2 != a ==> assoc_values(drop_key(s, a), k2) == assoc_values(s, k2),
    decreases s.len(),
{
    if s.len() == 0 {
        assert(assoc_values(drop_key(s, a), k2) =~= assoc_values(s, k2));
        if k2 == a {
            assert(assoc_values(s, k2) =~= Seq::<B::V>::empty());
        }
    } else {
        let pre = s.drop_last();
        let p = s.last();
        lemma_assoc_drop_key(pre, a, k2);
        let d = drop_key(pre, a);
        if p.0@ == a {
            assert(drop_key(s, a) =~= d);
            if k2 != a {
                assert(assoc_values(s, k2) =~= assoc_values(pre, k2));
            }
        } else {
            assert(drop_key(s, a) =~= d + seq![p]);
            lemma_assoc_values_push(d, p, k2);
            assert(d.push(p) =~= d + seq![p]);
            if p.0@ == k2 {
                assert(assoc_values(s, k2) =~= assoc_values(pre, k2) + seq![p.1@]);
                assert(assoc_values(drop_key(s, a), k2) =~= assoc_values(d, k2) + seq![p.1@]);
            } else {
                assert(assoc_values(s, k2) =~= assoc_values(pre, k2));
                assert(assoc_values(drop_key(s, a), k2) =~= assoc_values(d, k2));
            }
        }
    }
}

proof fn lemma_assoc_drop_sec<A: View, B: View>(s: Seq<(A, B)>, b: B::V, k2: A::V)
    ensures
        assoc_values(drop_sec(s, b), k2) == without(assoc_values(s, k2), b),
    decreases s.len(),
{
    if s.len() == 0 {
        assert(without(assoc_values(s, k2), b) =~= Seq::<B::V>::empty());
        assert(assoc_values(drop_sec(s, b), k2) =~= Seq::<B::V>::empty());
    } else {
        let pre = s.drop_last();
        let p = s.last();
        lemma_assoc_drop_sec(pre, b, k2);
        let d = drop_sec(pre, b);
        if p.1@ == b {
            assert(drop_sec(s, b) =~= d);
            if p.0@ == k2 {
                assert(assoc_values(s, k2) =~= assoc_values(pre, k2) + seq![p.1@]);
                assert(without(assoc_values(s, k2), b) =~= without(assoc_values(pre, k2), b)) by {
                    assert((assoc_values(pre, k2) + seq![p.1@]).drop_last() =~= assoc_values(
                        pre,
                        k2,
                    ));
                }
            } else {
                assert(assoc_values(s, k2) =~= assoc_values(pre, k2));
            }
        } else {
            assert(drop_sec(s, b) =~= d + seq![p]);
            lemma_assoc_values_push(d, p, k2);
            assert(d.push(p) =~= d + seq![p]);
            if p.0@ == k2 {
                assert(assoc_values(s, k2) =~= assoc_values(pre, k2) + seq![p.1@]);
                assert(assoc_values(drop_sec(s, b), k2) =~= assoc_values(d, k2) + seq![p.1@]);
                assert(without(assoc_values(s, k2), b) =~= without(assoc_values(pre, k2), b)
                    + seq![p.1@]) by {
                    assert((assoc_values(pre, k2) + seq![p.1@]).drop_last() =~= assoc_values(
                        pre,
                        k2,
                    ));
                }
            } else {
                assert(assoc_values(s, k2) =~= assoc_values(pre, k2));
                assert(assoc_values(drop_sec(s, b), k2) =~= assoc_values(d, k2));
            }
        }
    }
}

/// A bidirectional multimap: a bag of `(key, value)` associations indexed
/// in both directions, so that both "the values of a key" and "the keys of
/// a value" are directly available. Every operation keeps the two
/// directions consistent with each other.
///
/// The directions are held as association lists, so a lookup walks them
/// linearly where a hashed index would be constant-time; the lists keep
/// the exact effect of every operation statable and proved, and the
/// switchboard's populations (sessions, rooms, blocks) stay small.
#[derive(Debug)]
pub struct BidirectionalMultimap<K, V> {
    forward_mapping: Vec<(K, V)>,
    inverse_mapping: Vec<(V, K)>,
}

impl<K: Ident, V: Ident> BidirectionalMultimap<K, V> {
    /// The values currently associated with key `k`, in insertion order.
    pub closed spec fn values(self, k: K::V) -> Seq<V::V> {
        assoc_values(self.forward_mapping@, k)
    }

    /// The keys currently associated with value `v`, in insertion order.
    pub closed spec fn keys(self, v: V::V) -> Seq<K::V> {
        assoc_values(self.inverse_mapping@, v)
    }

    /// Whether the forward direction holds an entry `(k, v)`.
    pub open spec fn maps(self, k: K::V, v: V::V) -> bool {
        self.values(k).contains(v)
    }

    /// Whether the inverse direction holds an entry `(v, k)`.
    pub open spec fn maps_rev(self, v: V::V, k: K::V) -> bool {
        self.keys(v).contains(k)
    }

    /// Well-formedness: the two directions mirror each other.
    pub closed spec fn wf(self) -> bool {
        forall|k: K::V, v: V::V| #[trigger] self.maps(k, v) <==> #[trigger] self.maps_rev(v, k)
    }

    pub fn new() -> (r: Self)
        ensures
            r.wf(),
            forall|k: K::V| #[trigger] r.values(k) == Seq::<V::V>::empty(),
            forall|v: V::V| #[trigger] r.keys(v) == Seq::<K::V>::empty(),
    {
        Self { forward_mapping: Vec::new(), inverse_mapping: Vec::new() }
    }

    /// Records the association `(k, v)`, in both directions. A pair may be
    /// associated more than once; every copy is kept.
    pub fn associate(&mut self, k: K, v: V)
        requires
            old(self).wf(),
        ensures
            final(self).wf(),
            forall|k2: K::V|
                #[trigger] final(self).values(k2) == if k2 == k@ {
                    old(self).values(k2).push(v@)
                } else {
                    old(self).values(k2)
                },
            forall|v2: V::V|
                #[trigger] final(self).keys(v2) == if v2 == v@ {
                    old(self).keys(v2).push(k@)
                } else {
                    old(self).keys(v2)
                },
    {
        let kk = k.id_clone();
        let vv = v.id_clone();
        let ghost old_fwd = self.forward_mapping@;
        let ghost old_inv = self.inverse_mapping@;
        self.forward_mapping.push((k, vv));
        self.inverse_mapping.push((v, kk));
        proof {
            assert forall|k2: K::V| #[trigger]
                final(self).values(k2) == if k2 == k@ {
                    old(self).values(k2).push(v@)
                } else {
                    old(self).values(k2)
                } by {
                lemma_assoc_values_push(old_fwd, (k, vv), k2);
            }
            assert forall|v2: V::V| #[trigger]
                final(self).keys(v2) == if v2 == v@ {
                    old(self).keys(v2).push(k@)
                } else {
                    old(self).keys(v2)
                } by {
                lemma_assoc_values_push(old_inv, (v, kk), v2);
            }
            assert forall|k2: K::V, v2: V::V| #[trigger]
                final(self).maps(k2, v2) <==> #[trigger] final(self).maps_rev(v2, k2) by {
                assert(old(self).maps(k2, v2) <==> old(self).maps_rev(v2, k2));
                if k2 == k@ {
                    assert(final(self).values(k2) == old(self).values(k2).push(v@));
                    lemma_contains_append_one(old(self).values(k2), v@, v2);
                    assert(old(self).values(k2).push(v@) =~= old(self).values(k2) + seq![v@]);
                }
                if v2 == v@ {
                    assert(final(self).keys(v2) == old(self).keys(v2).push(k@));
                    lemma_contains_append_one(old(self).keys(v2), k@, k2);
                    assert(old(self).keys(v2).push(k@) =~= old(self).keys(v2) + seq![k@]);
                }
            }
        }
    }

    /// Removes every copy of the association `(k, v)`, in both directions.
    pub fn disassociate(&mut self, k: &K, v: &V)
        requires
            old(self).wf(),
        ensures
            final(self).wf(),
            forall|k2: K::V|
                #[trigger] final(self).values(k2) == if k2 == k@ {
                    without(old(self).values(k2), v@)
                } else {
                    old(self).values(k2)
                },
            forall|v2: V::V|
                #[trigger] final(self).keys(v2) == if v2 == v@ {
                    without(old(self).keys(v2), k@)
                } else {
                    old(self).keys(v2)
                },
    {
        let ghost old_fwd = self.forward_mapping@;
        let ghost old_inv = self.inverse_mapping@;
        let mut new_fwd: Vec<(K, V)> = Vec::new();
        let mut i: usize = 0;
        while i < self.forward_mapping.len()
            invariant
                i <= self.forward_mapping.len(),
                self.forward_mapping@ == old_fwd,
                new_fwd@ == drop_pair(old_fwd.take(i as int), k@, v@),
            decreases self.forward_mapping.len() - i,
        {
            let p = &self.forward_mapping[i];
            let ghost prefix = old_fwd.take(i as int);
            proof {
                assert(old_fwd.take(i as int + 1).drop_last() =~= prefix);
                assert(old_fwd.take(i as int + 1).last() == old_fwd[i as int]);
            }
            if !(p.0.id_eq(k) && p.1.id_eq(v)) {
                new_fwd.push((p.0.id_clone(), p.1.id_clone()));
                proof {
                    assert(new_fwd@ =~= drop_pair(prefix, k@, v@) + seq![old_fwd[i as int]]);
                    assert(drop_pair(old_fwd.take(i as int + 1), k@, v@) =~= drop_pair(
                        prefix,
                        k@,
                        v@,
                    ) + seq![old_fwd[i as int]]);
                }
            } else {
                proof {
                    assert(drop_pair(old_fwd.take(i as int + 1), k@, v@) =~= drop_pair(
                        prefix,
                        k@,
                        v@,
                    ) + Seq::<(K, V)>::empty());
                    assert(drop_pair(prefix, k@, v@) + Seq::<(K, V)>::empty() =~= drop_pair(
                        prefix,
                        k@,
                        v@,
                    ));
                }
            }
            i = i + 1;
        }
        proof {
            assert(old_fwd.take(old_fwd.len() as int) =~= old_fwd);
        }
        self.forward_mapping = new_fwd;

        let mut new_inv: Vec<(V, K)> = Vec::new();
        let mut j: usize = 0;
        while j < self.inverse_mapping.len()
            invariant
                j <= self.inverse_mapping.len(),
                self.inverse_mapping@ == old_inv,
                new_inv@ == drop_pair(old_inv.take(j as int), v@, k@),
            decreases self.inverse_mapping.len() - j,
        {
            let p = &self.inverse_mapping[j];
            let ghost prefix = old_inv.take(j as int);
            proof {
                assert(old_inv.take(j as int + 1).drop_last() =~= prefix);
                assert(old_inv.take(j as int + 1).last() == old_inv[j as int]);
            }
            if !(p.0.id_eq(v) && p.1.id_eq(k)) {
                new_inv.push((p.0.id_clone(), p.1.id_clone()));
                proof {
                    assert(new_inv@ =~= drop_pair(prefix, v@, k@) + seq![old_inv[j as int]]);
                    assert(drop_pair(old_inv.take(j as int + 1), v@, k@) =~= drop_pair(
                        prefix,
                        v@,
                        k@,
                    ) + seq![old_inv[j as int]]);
                }
            } else {
                proof {
                    assert(drop_pair(old_inv.take(j as int + 1), v@, k@) =~= drop_pair(
                        prefix,
                        v@,
                        k@,
                    ) + Seq::<(V, K)>::empty());
                    assert(drop_pair(prefix, v@, k@) + Seq::<(V, K)>::empty() =~= drop_pair(
                        prefix,
                        v@,
                        k@,
                    ));
                }
            }
            j = j + 1;
        }
        proof {
            assert(old_inv.take(old_inv.len() as int) =~= old_inv);
        }
        self.inverse_mapping = new_inv;

        proof {
            assert forall|k2: K::V| #[trigger]
                final(self).values(k2) == if k2 == k@ {
                    without(old(self).values(k2), v@)
                } else {
                    old(self).values(k2)
                } by {
                lemma_assoc_drop_pair(old_fwd, k@, v@, k2);
            }
            assert forall|v2: V::V| #[trigger]
                final(self).keys(v2) == if v2 == v@ {
                    without(old(self).keys(v2), k@)
                } else {
                    old(self).keys(v2)
                } by {
                lemma_assoc_drop_pair(old_inv, v@, k@, v2);
            }
            assert forall|k2: K::V, v2: V::V| #[trigger]
                final(self).maps(k2, v2) <==> #[trigger] final(self).maps_rev(v2, k2) by {
                assert(old(self).maps(k2, v2) <==> old(self).maps_rev(v2, k2));
                if k2 == k@ {
                    lemma_without_contains(old(self).values(k2), v@, v2);
                }
                if v2 == v@ {
                    lemma_without_contains(old(self).keys(v2), k@, k2);
                }
            }
        }
    }

    /// Removes the key `k` outright: every association whose key is `k`
    /// disappears from both directions.
    pub fn remove_key(&mut self, k: &K)
        requires
            old(self).wf(),
        ensures
            final(self).wf(),
            forall|k2: K::V|
                #[trigger] final(self).values(k2) == if k2 == k@ {
                    Seq::<V::V>::empty()
                } else {
                    old(self).values(k2)
                },
            forall|v2: V::V| #[trigger] final(self).keys(v2) == without(old(self).keys(v2), k@),
    {
        let ghost old_fwd = self.forward_mapping@;
        let ghost old_inv = self.inverse_mapping@;
        let mut new_fwd: Vec<(K, V)> = Vec::new();
        let mut i: usize = 0;
        while i < self.forward_mapping.len()
            invariant
                i <= self.forward_mapping.len(),
                self.forward_mapping@ == old_fwd,
                new_fwd@ == drop_key(old_fwd.take(i as int), k@),
            decreases self.forward_mapping.len() - i,
        {
            let p = &self.forward_mapping[i];
            let ghost prefix = old_fwd.take(i as int);
            proof {
                assert(old_fwd.take(i as int + 1).drop_last() =~= prefix);
                assert(old_fwd.take(i as int + 1).last() == old_fwd[i as int]);
            }
            if !p.0.id_eq(k) {
                new_fwd.push((p.0.id_clone(), p.1.id_clone()));
                proof {
                    assert(new_fwd@ =~= drop_key(prefix, k@) + seq![old_fwd[i as int]]);
                    assert(drop_key(old_fwd.take(i as int + 1), k@) =~= drop_key(prefix, k@)
                        + seq![old_fwd[i as int]]);
                }
            } else {
                proof {
                    assert(drop_key(old_fwd.take(i as int + 1), k@) =~= drop_key(prefix, k@)
                        + Seq::<(K, V)>::empty());
                    assert(drop_key(prefix, k@) + Seq::<(K, V)>::empty() =~= drop_key(prefix, k@));
                }
            }
            i = i + 1;
        }
        proof {
            assert(old_fwd.take(old_fwd.len() as int) =~= old_fwd);
        }
        self.forward_mapping = new_fwd;

        let mut new_inv: Vec<(V, K)> = Vec::new();
        let mut j: usize = 0;
        while j < self.inverse_mapping.len()
            invariant
                j <= self.inverse_mapping.len(),
                self.inverse_mapping@ == old_inv,
                new_inv@ == drop_sec(old_inv.take(j as int), k@),
            decreases self.inverse_mapping.len() - j,
        {
            let p = &self.inverse_mapping[j];
            let ghost prefix = old_inv.take(j as int);
            proof {
                assert(old_inv.take(j as int + 1).drop_last() =~= prefix);
                assert(old_inv.take(j as int + 1).last() == old_inv[j as int]);
            }
            if !p.1.id_eq(k) {
                new_inv.push((p.0.id_clone(), p.1.id_clone()));
                proof {
                    assert(new_inv@ =~= drop_sec(prefix, k@) + seq![old_inv[j as int]]);
                    assert(drop_sec(old_inv.take(j as int + 1), k@) =~= drop_sec(prefix, k@)
                        + seq![old_inv[j as int]]);
                }
            } else {
                proof {
                    assert(drop_sec(old_inv.take(j as int + 1), k@) =~= drop_sec(prefix, k@)
                        + Seq::<(V, K)>::empty());
                    assert(drop_sec(prefix, k@) + Seq::<(V, K)>::empty() =~= drop_sec(prefix, k@));
                }
            }
            j = j + 1;
        }
        proof {
            assert(old_inv.take(old_inv.len() as int) =~= old_inv);
        }
        self.inverse_mapping = new_inv;

        proof {
            assert forall|k2: K::V| #[trigger]
                final(self).values(k2) == if k2 == k@ {
                    Seq::<V::V>::empty()
                } else {
                    old(self).values(k2)
                } by {
                lemma_assoc_drop_key(old_fwd, k@, k2);
            }
            assert forall|v2: V::V| #[trigger]
                final(self).keys(v2) == without(old(self).keys(v2), k@) by {
                lemma_assoc_drop_sec(old_inv, k@, v2);
            }
            assert forall|k2: K::V, v2: V::V| #[trigger]
                final(self).maps(k2, v2) <==> #[trigger] final(self).maps_rev(v2, k2) by {
                assert(old(self).maps(k2, v2) <==> old(self).maps_rev(v2, k2));
                lemma_without_contains(old(self).keys(v2), k@, k2);
            }
        }
    }

    /// Removes the value `v` outright: every association whose value is `v`
    /// disappears from both directions.
    pub fn remove_value(&mut self, v: &V)
        requires
            old(self).wf(),
        ensures
            final(self).wf(),
            forall|k2: K::V| #[trigger] final(self).values(k2) == without(old(self).values(k2), v@),
            forall|v2: V::V|
                #[trigger] final(self).keys(v2) == if v2 == v@ {
                    Seq::<K::V>::empty()
                } else {
                    old(self).keys(v2)
                },
    {
        let ghost old_fwd = self.forward_mapping@;
        let ghost old_inv = self.inverse_mapping@;
        let mut new_fwd: Vec<(K, V)> = Vec::new();
        let mut i: usize = 0;
        while i < self.forward_mapping.len()
            invariant
                i <= self.forward_mapping.len(),
                self.forward_mapping@ == old_fwd,
                new_fwd@ == drop_sec(old_fwd.take(i as int), v@),
            decreases self.forward_mapping.len() - i,
        {
            let p = &self.forward_mapping[i];
            let ghost prefix = old_fwd.take(i as int);
            proof {
                assert(old_fwd.take(i as int + 1).drop_last() =~= prefix);
                assert(old_fwd.take(i as int + 1).last() == old_fwd[i as int]);
            }
            if !p.1.id_eq(v) {
                new_fwd.push((p.0.id_clone(), p.1.id_clone()));
                proof {
                    assert(new_fwd@ =~= drop_sec(prefix, v@) + seq![old_fwd[i as int]]);
                    assert(drop_sec(old_fwd.take(i as int + 1), v@) =~= drop_sec(prefix, v@)
                        + seq![old_fwd[i as int]]);
                }
            } else {
                proof {
                    assert(drop_sec(old_fwd.take(i as int + 1), v@) =~= drop_sec(prefix, v@)
                        + Seq::<(K, V)>::empty());
                    assert(drop_sec(prefix, v@) + Seq::<(K, V)>::empty() =~= drop_sec(prefix, v@));
                }
            }
            i = i + 1;
        }
        proof {
            assert(old_fwd.take(old_fwd.len() as int) =~= old_fwd);
        }
        self.forward_mapping = new_fwd;

        let mut new_inv: Vec<(V, K)> = Vec::new();
        let mut j: usize = 0;
        while j < self.inverse_mapping.len()
            invariant
                j <= self.inverse_mapping.len(),
                self.inverse_mapping@ == old_inv,
                new_inv@ == drop_key(old_inv.take(j as int), v@),
            decreases self.inverse_mapping.len() - j,
        {
            let p = &self.inverse_mapping[j];
            let ghost prefix = old_inv.take(j as int);
            proof {
                assert(old_inv.take(j as int + 1).drop_last() =~= prefix);
                assert(old_inv.take(j as int + 1).last() == old_inv[j as int]);
            }
            if !p.0.id_eq(v) {
                new_inv.push((p.0.id_clone(), p.1.id_clone()));
                proof {
                    assert(new_inv@ =~= drop_key(prefix, v@) + seq![old_inv[j as int]]);
                    assert(drop_key(old_inv.take(j as int + 1), v@) =~= drop_key(prefix, v@)
                        + seq![old_inv[j as int]]);
                }
            } else {
                proof {
                    assert(drop_key(old_inv.take(j as int + 1), v@) =~= drop_key(prefix, v@)
                        + Seq::<(V, K)>::empty());
                    assert(drop_key(prefix, v@) + Seq::<(V, K)>::empty() =~= drop_key(prefix, v@));
                }
            }
            j = j + 1;
        }
        proof {
            assert(old_inv.take(old_inv.len() as int) =~= old_inv);
        }
        self.inverse_mapping = new_inv;

        proof {
            assert forall|k2: K::V| #[trigger]
                final(self).values(k2) == without(old(self).values(k2), v@) by {
                lemma_assoc_drop_sec(old_fwd, v@, k2);
            }
            assert forall|v2: V::V| #[trigger]
                final(self).keys(v2) == if v2 == v@ {
                    Seq::<K::V>::empty()
                } else {
                    old(self).keys(v2)
                } by {
                lemma_assoc_drop_key(old_inv, v@, v2);
            }
            assert forall|k2: K::V, v2: V::V| #[trigger]
                final(self).maps(k2, v2) <==> #[trigger] final(self).maps_rev(v2, k2) by {
                assert(old(self).maps(k2, v2) <==> old(self).maps_rev(v2, k2));
                lemma_without_contains(old(self).values(k2), v@, v2);
            }
        }
    }

    /// The values associated with `k`, as a fresh vector.
    pub fn get_values(&self, k: &K) -> (r: Vec<V>)
        ensures
            r@.map_values(|x: V| x@) == self.values(k@),
    {
        let mut r: Vec<V> = Vec::new();
        let mut i: usize = 0;
        while i < self.forward_mapping.len()
            invariant
                i <= self.forward_mapping.len(),
                r@.map_values(|x: V| x@) == assoc_values(
                    self.forward_mapping@.take(i as int),
                    k@,
                ),
            decreases self.forward_mapping.len() - i,
        {
            let ghost s = self.forward_mapping@;
            let ghost prefix = s.take(i as int);
            proof {
                assert(s.take(i as int + 1).drop_last() =~= prefix);
                assert(s.take(i as int + 1).last() == s[i as int]);
            }
            let p = &self.forward_mapping[i];
            if p.0.id_eq(k) {
                r.push(p.1.id_clone());
                proof {
                    assert(r@.map_values(|x: V| x@) =~= assoc_values(prefix, k@) + seq![
                        s[i as int].1@,
                    ]);
                }
            } else {
                proof {
                    assert(assoc_values(s.take(i as int + 1), k@) =~= assoc_values(prefix, k@));
                }
            }
            i = i + 1;
        }
        proof {
            assert(self.forward_mapping@.take(self.forward_mapping@.len() as int)
                =~= self.forward_mapping@);
        }
        r
    }

    /// The keys associated with `v`, as a fresh vector.
    pub fn get_keys(&self, v: &V) -> (r: Vec<K>)
        ensures
            r@.map_values(|x: K| x@) == self.keys(v@),
    {
        let mut r: Vec<K> = Vec::new();
        let mut i: usize = 0;
        while i < self.inverse_mapping.len()
            invariant
                i <= self.inverse_mapping.len(),
                r@.map_values(|x: K| x@) == assoc_values(
                    self.inverse_mapping@.take(i as int),
                    v@,
                ),
            decreases self.inverse_mapping.len() - i,
        {
            let ghost s = self.inverse_mapping@;
            let ghost prefix = s.take(i as int);
            proof {
                assert(s.take(i as int + 1).drop_last() =~= prefix);
                assert(s.take(i as int + 1).last() == s[i as int]);
            }
            let p = &self.inverse_mapping[i];
            if p.0.id_eq(v) {
                r.push(p.1.id_clone());
                proof {
                    assert(r@.map_values(|x: K| x@) =~= assoc_values(prefix, v@) + seq![
                        s[i as int].1@,
                    ]);
                }
            } else {
                proof {
                    assert(assoc_values(s.take(i as int + 1), v@) =~= assoc_values(prefix, v@));
                }
            }
            i = i + 1;
        }
        proof {
            assert(self.inverse_mapping@.take(self.inverse_mapping@.len() as int)
                =~= self.inverse_mapping@);
        }
        r
    }
}

/// The views of a sequence of owned strings.
pub open spec fn views_of_strings(s: Seq<String>) -> Seq<Seq<char>> {
    s.map_values(|u: String| u@)
}

/// Whether a vector of identifiers contains one viewing as `x`.
pub fn vec_contains_id<T: Ident>(v: &Vec<T>, x: &T) -> (r: bool)
    ensures
        r == v@.map_values(|t: T| t@).contains(x@),
{
    let mut i: usize = 0;
    while i < v.len()
        invariant
            i <= v@.len(),
            forall|k: int| 0 <= k < i as int ==> (#[trigger] v@[k])@ != x@,
        decreases v@.len() - i,
    {
        if v[i].id_eq(x) {
            proof {
                assert(v@.map_values(|t: T| t@)[i as int] == x@);
            }
            return true;
        }
        i = i + 1;
    }
    proof {
        if v@.map_values(|t: T| t@).contains(x@) {
            let m = v@.map_values(|t: T| t@);
            let k = choose|k: int| 0 <= k < m.len() && (#[trigger] m[k]) == x@;
            assert(v@[k]@ == x@);
        }
    }
    false
}

impl Switchboard {
    /// The handles of `hs` that pass the block filter against sender `a`:
    /// a candidate is kept unless both ends have joined and a block stands
    /// between their users in either direction.
    pub open spec fn media_filtered(self, a: u64, hs: Seq<u64>) -> Seq<u64>
        decreases hs.len(),
    {
        if hs.len() == 0 {
            Seq::empty()
        } else {
            self.media_filtered(a, hs.drop_last()) + if self.spec_media_pass(a, hs.last()) {
                seq![hs.last()]
            } else {
                Seq::empty()
            }
        }
    }

    /// The handles of `hs`, other than `a` itself, that pass the block
    /// filter against sender `a`.
    pub open spec fn data_filtered(self, a: u64, hs: Seq<u64>) -> Seq<u64>
        decreases hs.len(),
    {
        if hs.len() == 0 {
            Seq::empty()
        } else {
            self.data_filtered(a, hs.drop_last()) + if hs.last() != a && self.spec_media_pass(
                a,
                hs.last(),
            ) {
                seq![hs.last()]
            } else {
                Seq::empty()
            }
        }
    }

    /// Whether traffic may flow between the sessions `a` and `b`: it may
    /// unless both have joined and a block stands between their users in
    /// either direction.
    pub open spec fn spec_media_pass(self, a: u64, b: u64) -> bool {
        match (self.spec_join_of(a), self.spec_join_of(b)) {
            (Some(x), Some(y)) => !self.spec_blocked_either(x.user_id@, y.user_id@),
            _ => true,
        }
    }

    /// The sessions that should receive media sent by `h`.
    pub open spec fn spec_media_recipients(self, h: u64) -> Seq<u64> {
        self.media_filtered(h, self.spec_subscribers_to(h))
    }

    /// The sessions whose media flows to `h`.
    pub open spec fn spec_media_senders(self, h: u64) -> Seq<u64> {
        self.media_filtered(h, self.spec_publishers_to(h))
    }

    /// The sessions that should receive data sent by `h`: the other
    /// publishers of its room, minus blocked pairs.
    pub open spec fn spec_data_recipients(self, h: u64) -> Seq<u64> {
        match self.spec_join_of(h) {
            None => Seq::empty(),
            Some(js) => self.data_filtered(h, self.spec_room_list(js.room_id@)),
        }
    }

    /// The users of the sessions in `hs` that have joined, in order.
    pub open spec fn users_of(self, hs: Seq<u64>) -> Seq<Seq<char>>
        decreases hs.len(),
    {
        if hs.len() == 0 {
            Seq::empty()
        } else {
            self.users_of(hs.drop_last()) + match self.spec_join_of(hs.last()) {
                Some(js) => seq![js.user_id@],
                None => Seq::empty(),
            }
        }
    }

    /// The users present in room `r`: the users of its publishers.
    pub open spec fn spec_room_users(self, r: Seq<char>) -> Seq<Seq<char>> {
        self.users_of(self.spec_room_list(r))
    }

    /// Whether a block stands between `a` and `b` in either direction.
    pub fn blocked_either(&self, a: &UserId, b: &UserId) -> (r: bool)
        ensures
            r == self.spec_blocked_either(a@, b@),
    {
        let fwd = self.blockers_to_miscreants.get_values(a);
        let rev = self.blockers_to_miscreants.get_values(b);
        let forward = vec_contains_id(&fwd, b);
        let reverse = vec_contains_id(&rev, a);
        forward || reverse
    }

    /// Whether traffic may flow between the sessions `a` and `b`.
    fn media_pass(&self, a: u64, b: u64) -> (r: bool)
        ensures
            r == self.spec_media_pass(a, b),
    {
        match self.join_state_of(a) {
            None => true,
            Some(x) => match self.join_state_of(b) {
                None => true,
                Some(y) => !self.blocked_either(&x.user_id, &y.user_id),
            },
        }
    }

    /// The sessions that should receive media sent by `h`: its subscribers,
    /// minus blocked pairs.
    pub fn media_recipients_for(&self, h: u64) -> (r: Vec<u64>)
        ensures
            r@ == self.spec_media_recipients(h),
    {
        let candidates = self.subscribers_to(h);
        let mut out: Vec<u64> = Vec::new();
        let mut i: usize = 0;
        while i < candidates.len()
            invariant
                i <= candidates@.len(),
                candidates@ == self.spec_subscribers_to(h),
                out@ == self.media_filtered(h, candidates@.take(i as int)),
            decreases candidates@.len() - i,
        {
            let ghost t = candidates@.take(i as int + 1);
            proof {
                assert(t.drop_last() =~= candidates@.take(i as int));
                assert(t.last() == candidates@[i as int]);
            }
            let c = candidates[i];
            if self.media_pass(h, c) {
                out.push(c);
                proof {
                    assert(out@ =~= self.media_filtered(h, candidates@.take(i as int)) + seq![c]);
                }
            } else {
                proof {
                    assert(self.media_filtered(h, t) =~= self.media_filtered(
                        h,
                        candidates@.take(i as int),
                    ));
                }
            }
            i = i + 1;
        }
        proof {
            assert(candidates@.take(candidates@.len() as int) =~= candidates@);
        }
        out
    }

    /// The sessions whose media flows to `h`: the publishers it subscribes
    /// to, minus blocked pairs.
    pub fn media_senders_to(&self, h: u64) -> (r: Vec<u64>)
        ensures
            r@ == self.spec_media_senders(h),
    {
        let candidates = self.publishers_to(h);
        let mut out: Vec<u64> = Vec::new();
        let mut i: usize = 0;
        while i < candidates.len()
            invariant
                i <= candidates@.len(),
                candidates@ == self.spec_publishers_to(h),
                out@ == self.media_filtered(h, candidates@.take(i as int)),
            decreases candidates@.len() - i,
        {
            let ghost t = candidates@.take(i as int + 1);
            proof {
                assert(t.drop_last() =~= candidates@.take(i as int));
                assert(t.last() == candidates@[i as int]);
            }
            let c = candidates[i];
            if self.media_pass(h, c) {
                out.push(c);
                proof {
                    assert(out@ =~= self.media_filtered(h, candidates@.take(i as int)) + seq![c]);
                }
            } else {
                proof {
                    assert(self.media_filtered(h, t) =~= self.media_filtered(
                        h,
                        candidates@.take(i as int),
                    ));
                }
            }
            i = i + 1;
        }
        proof {
            assert(candidates@.take(candidates@.len() as int) =~= candidates@);
        }
        out
    }

    /// The sessions that should receive data sent by `h`: the other
    /// publishers in its room, minus blocked pairs.
    pub fn data_recipients_for(&self, h: u64) -> (r: Vec<u64>)
        ensures
            r@ == self.spec_data_recipients(h),
    {
        let js = match self.join_state_of(h) {
            None => {
                return Vec::new();
            },
            Some(js) => js,
        };
        let candidates = self.publishers_occupying(&js.room_id);
        let mut out: Vec<u64> = Vec::new();
        let mut i: usize = 0;
        while i < candidates.len()
            invariant
                i <= candidates@.len(),
                candidates@ == self.spec_room_list(js.room_id@),
                self.spec_join_of(h) == Some(js),
                out@ == self.data_filtered(h, candidates@.take(i as int)),
            decreases candidates@.len() - i,
        {
            let ghost t = candidates@.take(i as int + 1);
            proof {
                assert(t.drop_last() =~= candidates@.take(i as int));
                assert(t.last() == candidates@[i as int]);
            }
            let c = candidates[i];
            if c != h && self.media_pass(h, c) {
                out.push(c);
                proof {
                    assert(out@ =~= self.data_filtered(h, candidates@.take(i as int)) + seq![c]);
                }
            } else {
                proof {
                    assert(self.data_filtered(h, t) =~= self.data_filtered(
                        h,
                        candidates@.take(i as int),
                    ));
                }
            }
            i = i + 1;
        }
        proof {
            assert(candidates@.take(candidates@.len() as int) =~= candidates@);
        }
        out
    }

    /// The users present in the given room, each exactly once.
    pub fn get_room_users(&self, room: &RoomId) -> (r: Vec<UserId>)
        requires
            self.wf(),
        ensures
            views_of_strings(r@) == self.spec_room_users(room@),
            forall|i: int, j: int|
                #![trigger r@[i], r@[j]]
                0 <= i < j < r@.len() ==> r@[i]@ != r@[j]@,
    {
        let candidates = self.publishers_occupying(room);
        let mut out: Vec<UserId> = Vec::new();
        let mut i: usize = 0;
        while i < candidates.len()
            invariant
                i <= candidates@.len(),
                candidates@ == self.spec_room_list(room@),
                views_of_strings(out@) == self.users_of(candidates@.take(i as int)),
            decreases candidates@.len() - i,
        {
            let ghost t = candidates@.take(i as int + 1);
            proof {
                assert(t.drop_last() =~= candidates@.take(i as int));
                assert(t.last() == candidates@[i as int]);
            }
            let c = candidates[i];
            match self.join_state_of(c) {
                Some(js) => {
                    out.push(js.user_id);
                    proof {
                        assert(views_of_strings(out@) =~= self.users_of(
                            candidates@.take(i as int),
                        ) + seq![self.spec_join_of(c).unwrap().user_id@]);
                    }
                },
                None => {
                    proof {
                        assert(self.users_of(t) =~= self.users_of(candidates@.take(i as int)));
                    }
                },
            }
            i = i + 1;
        }
        proof {
            assert(candidates@.take(candidates@.len() as int) =~= candidates@);
            self.lemma_room_users_distinct(room@, out@);
        }
        out
    }

    /// In a well-formed switchboard the users of a room's publishers are
    /// pairwise distinct.
    proof fn lemma_room_users_distinct(&self, room: Seq<char>, out: Seq<UserId>)
        requires
            self.wf(),
            views_of_strings(out) == self.spec_room_users(room),
        ensures
            forall|i: int, j: int|
                #![trigger out[i], out[j]]
                0 <= i < j < out.len() ==> out[i]@ != out[j]@,
    {
        let hs = self.spec_room_list(room);
        self.lemma_users_of_index(hs, room);
        assert forall|i: int, j: int| 0 <= i < j < out.len() implies out[i]@ != out[j]@ by {
            assert(views_of_strings(out)[i] == out[i]@);
            assert(views_of_strings(out)[j] == out[j]@);
            let hi = hs[i];
            let hj = hs[j];
            assert(hi != hj);
            assert(hs[i] == hi && 0 <= i < hs.len());
            lemma_contains_from_index(hs, i);
            lemma_contains_from_index(hs, j);
            let ui = self.spec_join_of(hi).unwrap().user_id@;
            let uj = self.spec_join_of(hj).unwrap().user_id@;
            if ui == uj {
                let l = assoc_values(self.publishers_by_user@, ui);
                assert(l.contains(hi));
                assert(l.contains(hj));
                let ki = choose|k: int| 0 <= k < l.len() && l[k] == hi;
                let kj = choose|k: int| 0 <= k < l.len() && l[k] == hj;
                assert(ki != kj);
                assert(l.len() >= 2);
            }
        }
    }

    /// In a well-formed switchboard every handle in a room list has a
    /// publisher join state, and `users_of` lines up index by index.
    proof fn lemma_users_of_index(&self, hs: Seq<u64>, room: Seq<char>)
        requires
            self.wf(),
            hs == self.spec_room_list(room),
        ensures
            self.users_of(hs).len() == hs.len(),
            forall|k: int|
                0 <= k < hs.len() ==> (#[trigger] self.users_of(hs)[k]) == self.spec_join_of(
                    hs[k],
                ).unwrap().user_id@ && self.spec_join_of(hs[k]) is Some,
    {
        assert forall|k: int|
            0 <= k < hs.len() implies (#[trigger] self.spec_join_of(hs[k])) is Some by {
            lemma_contains_from_index(hs, k);
            assert(assoc_values(self.publishers_by_room@, room).contains(hs[k]));
        }
        self.lemma_users_of_index_rec(hs);
    }

    proof fn lemma_users_of_index_rec(&self, hs: Seq<u64>)
        requires
            forall|k: int|
                0 <= k < hs.len() ==> (#[trigger] self.spec_join_of(hs[k])) is Some,
        ensures
            self.users_of(hs).len() == hs.len(),
            forall|k: int|
                0 <= k < hs.len() ==> (#[trigger] self.users_of(hs)[k]) == self.spec_join_of(
                    hs[k],
                ).unwrap().user_id@,
        decreases hs.len(),
    {
        if hs.len() == 0 {
        } else {
            let pre = hs.drop_last();
            assert(forall|k: int|
                0 <= k < pre.len() ==> (#[trigger] self.spec_join_of(pre[k])) is Some);
            self.lemma_users_of_index_rec(pre);
            assert(self.spec_join_of(hs[hs.len() - 1]) is Some);
            assert(self.users_of(hs) =~= self.users_of(pre) + seq![
                self.spec_join_of(hs.last()).unwrap().user_id@,
            ]);
        }
    }
}

proof fn lemma_contains_from_index<T>(s: Seq<T>, i: int)
    requires
        0 <= i < s.len(),
    ensures
        s.contains(s[i]),
{
}

proof fn lemma_media_filtered_contains(sb: Switchboard, a: u64, hs: Seq<u64>, x: u64)
    ensures
        sb.media_filtered(a, hs).contains(x) ==> (hs.contains(x) && sb.spec_media_pass(a, x)),
    decreases hs.len(),
{
    if hs.len() == 0 {
    } else {
        let pre = hs.drop_last();
        lemma_media_filtered_contains(sb, a, pre, x);
        if sb.spec_media_pass(a, hs.last()) {
            lemma_contains_append_one(sb.media_filtered(a, pre), hs.last(), x);
        } else {
            lemma_contains_append_empty(sb.media_filtered(a, pre), x);
        }
        if pre.contains(x) {
            let k = choose|k: int| 0 <= k < pre.len() && pre[k] == x;
            assert(hs[k] == x);
        }
        if hs.last() == x {
            assert(hs[hs.len() - 1] == x);
        }
    }
}

proof fn lemma_data_filtered_contains(sb: Switchboard, a: u64, hs: Seq<u64>, x: u64)
    ensures
        sb.data_filtered(a, hs).contains(x) ==> (hs.contains(x) && x != a && sb.spec_media_pass(
            a,
            x,
        )),
    decreases hs.len(),
{
    if hs.len() == 0 {
    } else {
        let pre = hs.drop_last();
        lemma_data_filtered_contains(sb, a, pre, x);
        if hs.last() != a && sb.spec_media_pass(a, hs.last()) {
            lemma_contains_append_one(sb.data_filtered(a, pre), hs.last(), x);
        } else {
            lemma_contains_append_empty(sb.data_filtered(a, pre), x);
        }
        if pre.contains(x) {
            let k = choose|k: int| 0 <= k < pre.len() && pre[k] == x;
            assert(hs[k] == x);
        }
        if hs.last() == x {
            assert(hs[hs.len() - 1] == x);
        }
    }
}

/// Block symmetry: when a block stands between the users of two joined
/// sessions, in either direction, neither session appears among the media
/// recipients, media senders, or data recipients computed for the other.
pub proof fn lemma_block_symmetry(sb: Switchboard, h1: u64, h2: u64)
    requires
        sb.spec_join_of(h1) is Some,
        sb.spec_join_of(h2) is Some,
        sb.spec_blocked_either(
            sb.spec_join_of(h1).unwrap().user_id@,
            sb.spec_join_of(h2).unwrap().user_id@,
        ),
    ensures
        !sb.spec_media_recipients(h1).contains(h2),
        !sb.spec_media_recipients(h2).contains(h1),
        !sb.spec_media_senders(h1).contains(h2),
        !sb.spec_media_senders(h2).contains(h1),
        !sb.spec_data_recipients(h1).contains(h2),
        !sb.spec_data_recipients(h2).contains(h1),
{
    assert(!sb.spec_media_pass(h1, h2));
    assert(!sb.spec_media_pass(h2, h1));
    lemma_media_filtered_contains(sb, h1, sb.spec_subscribers_to(h1), h2);
    lemma_media_filtered_contains(sb, h2, sb.spec_subscribers_to(h2), h1);
    lemma_media_filtered_contains(sb, h1, sb.spec_publishers_to(h1), h2);
    lemma_media_filtered_contains(sb, h2, sb.spec_publishers_to(h2), h1);
    match sb.spec_join_of(h1) {
        Some(js) => {
            lemma_data_filtered_contains(sb, h1, sb.spec_room_list(js.room_id@), h2);
        },
        None => {},
    }
    match sb.spec_join_of(h2) {
        Some(js) => {
            lemma_data_filtered_contains(sb, h2, sb.spec_room_list(js.room_id@), h1);
        },
        None => {},
    }
}

/// Single publisher per user: a well-formed switchboard indexes at most one
/// publisher session for any user, and `spec_publisher_of` pins the whole
/// index down.
pub proof fn lemma_single_publisher(sb: Switchboard, u: Seq<char>)
    requires
        sb.wf(),
    ensures
        sb.spec_publishers_of(u).len() <= 1,
        sb.spec_publisher_of(u) matches Some(h) ==> sb.spec_publishers_of(u) == seq![h],
        sb.spec_publisher_of(u) is None ==> sb.spec_publishers_of(u) == Seq::<u64>::empty(),
{
    if sb.spec_publishers_of(u).len() == 0 {
        assert(sb.spec_publishers_of(u) =~= Seq::<u64>::empty());
    } else {
        assert(sb.spec_publishers_of(u) =~= seq![sb.spec_publishers_of(u)[0]]);
    }
}

/// In a well-formed switchboard, a user's indexed publisher is a live
/// session that joined as that user's publisher.
pub proof fn lemma_publisher_live(sb: Switchboard, u: Seq<char>)
    requires
        sb.wf(),
        sb.spec_publisher_of(u) is Some,
    ensures
        sb.has_session(sb.spec_publisher_of(u).unwrap()),
        sb.spec_join_of(sb.spec_publisher_of(u).unwrap()) matches Some(js) && js.kind
            == JoinKind::Publisher && js.user_id@ == u,
{
    let h = sb.spec_publisher_of(u).unwrap();
    assert(sb.spec_publishers_of(u)[0] == h);
    assert(sb.spec_publishers_of(u).contains(h));
}

/// In a well-formed switchboard, a room's occupant list holds pairwise
/// distinct publisher sessions of pairwise distinct users, all joined into
/// that room.
pub proof fn lemma_room_occupants(sb: Switchboard, room: Seq<char>)
    requires
        sb.wf(),
    ensures
        forall|k: int|
            0 <= k < sb.spec_room_list(room).len() ==> ((#[trigger] sb.spec_join_of(
                sb.spec_room_list(room)[k],
            )) matches Some(js) && js.kind == JoinKind::Publisher && js.room_id@ == room),
        forall|i: int, j: int|
            #![trigger sb.spec_room_list(room)[i], sb.spec_room_list(room)[j]]
            0 <= i < j < sb.spec_room_list(room).len() ==> (sb.spec_room_list(room)[i]
                != sb.spec_room_list(room)[j] && sb.spec_join_of(
                sb.spec_room_list(room)[i],
            ).unwrap().user_id@ != sb.spec_join_of(sb.spec_room_list(room)[j]).unwrap().user_id@),
{
    let hs = sb.spec_room_list(room);
    assert forall|k: int|
        0 <= k < hs.len() implies ((#[trigger] sb.spec_join_of(hs[k])) matches Some(js)
        && js.kind == JoinKind::Publisher && js.room_id@ == room) by {
        lemma_contains_from_index(hs, k);
        assert(assoc_values(sb.publishers_by_room@, room).contains(hs[k]));
    }
    assert forall|i: int, j: int|
        0 <= i < j < hs.len() implies (hs[i] != hs[j] && sb.spec_join_of(
        hs[i],
    ).unwrap().user_id@ != sb.spec_join_of(hs[j]).unwrap().user_id@) by {
        assert(hs[i] != hs[j]);
        lemma_contains_from_index(hs, i);
        lemma_contains_from_index(hs, j);
        assert(assoc_values(sb.publishers_by_room@, room).contains(hs[i]));
        assert(assoc_values(sb.publishers_by_room@, room).contains(hs[j]));
        let ui = sb.spec_join_of(hs[i]).unwrap().user_id@;
        let uj = sb.spec_join_of(hs[j]).unwrap().user_id@;
        if ui == uj {
            let l = assoc_values(sb.publishers_by_user@, ui);
            assert(l.contains(hs[i]));
            assert(l.contains(hs[j]));
            let ki = choose|k: int| 0 <= k < l.len() && l[k] == hs[i];
            let kj = choose|k: int| 0 <= k < l.len() && l[k] == hs[j];
            assert(ki != kj);
            assert(l.len() >= 2);
        }
    }
}

/// Bidirectional multimap consistency: in a well-formed multimap, every
/// forward entry `(k, v)` has a matching reverse entry `(v, k)`, and vice
/// versa. Every operation of the multimap preserves well-formedness, so
/// this holds after any sequence of them.
pub proof fn lemma_bidirectional_consistency<K: Ident, V: Ident>(
    m: &BidirectionalMultimap<K, V>,
    k: K::V,
    v: V::V,
)
    requires
        m.wf(),
    ensures
        m.maps(k, v) <==> m.maps_rev(v, k),
{
}

proof fn lemma_without_len<T>(s: Seq<T>, x: T)
    ensures
        without(s, x).len() <= s.len(),
    decreases s.len(),
{
    if s.len() == 0 {
    } else {
        lemma_without_len(s.drop_last(), x);
    }
}

proof fn lemma_assoc_concat<A: View, B: View>(s1: Seq<(A, B)>, s2: Seq<(A, B)>, k: A::V)
    ensures
        assoc_values(s1 + s2, k) == assoc_values(s1, k) + assoc_values(s2, k),
    decreases s2.len(),
{
    if s2.len() == 0 {
        assert(s1 + s2 =~= s1);
        assert(assoc_values(s1, k) + assoc_values(s2, k) =~= assoc_values(s1, k));
    } else {
        lemma_assoc_concat(s1, s2.drop_last(), k);
        assert((s1 + s2).drop_last() =~= s1 + s2.drop_last());
        assert((s1 + s2).last() == s2.last());
        assert(assoc_values(s1, k) + assoc_values(s2, k) =~= (assoc_values(s1, k) + assoc_values(
            s2.drop_last(),
            k,
        )) + if s2.last().0@ == k {
            seq![s2.last().1@]
        } else {
            Seq::empty()
        });
    }
}

/// The two switchboards map every handle to the same session.
pub open spec fn same_sessions(a: Switchboard, b: Switchboard) -> bool {
    forall|h: u64|
        #![trigger a.spec_session(h)]
        #![trigger b.spec_session(h)]
        a.spec_session(h) == b.spec_session(h)
}

/// The two switchboards hold the same publisher, room, and subscriber
/// indices.
pub open spec fn same_indices(a: Switchboard, b: Switchboard) -> bool {
    &&& forall|u: Seq<char>|
        #![trigger a.spec_publishers_of(u)]
        #![trigger b.spec_publishers_of(u)]
        a.spec_publishers_of(u) == b.spec_publishers_of(u)
    &&& forall|r: Seq<char>|
        #![trigger a.spec_room_list(r)]
        #![trigger b.spec_room_list(r)]
        a.spec_room_list(r) == b.spec_room_list(r)
    &&& forall|u: Seq<char>|
        #![trigger a.spec_subs_of_user(u)]
        #![trigger b.spec_subs_of_user(u)]
        a.spec_subs_of_user(u) == b.spec_subs_of_user(u)
}

/// The two switchboards hold the same subscription edges.
pub open spec fn same_edges(a: Switchboard, b: Switchboard) -> bool {
    &&& forall|p: u64|
        #![trigger a.spec_subscribers_to(p)]
        #![trigger b.spec_subscribers_to(p)]
        a.spec_subscribers_to(p) == b.spec_subscribers_to(p)
    &&& forall|h: u64|
        #![trigger a.spec_publishers_to(h)]
        #![trigger b.spec_publishers_to(h)]
        a.spec_publishers_to(h) == b.spec_publishers_to(h)
}

/// The two switchboards hold the same blocks.
pub open spec fn same_blocks(a: Switchboard, b: Switchboard) -> bool {
    forall|x: Seq<char>, y: Seq<char>|
        #![trigger a.spec_blocks(x, y)]
        #![trigger b.spec_blocks(x, y)]
        a.spec_blocks(x, y) == b.spec_blocks(x, y)
}

/// The session, if any, with the given handle.
pub open spec fn lookup_session(s: Seq<Session>, h: u64) -> Option<Session>
    decreases s.len(),
{
    if s.len() == 0 {
        None
    } else if s.last().handle == h {
        Some(s.last())
    } else {
        lookup_session(s.drop_last(), h)
    }
}

/// No two sessions share a handle.
pub open spec fn handles_unique(s: Seq<Session>) -> bool {
    forall|i: int, j: int| 0 <= i < j < s.len() ==> s[i].handle != s[j].handle
}

proof fn lemma_lookup_none(s: Seq<Session>, h: u64)
    requires
        forall|j: int| 0 <= j < s.len() ==> s[j].handle != h,
    ensures
        lookup_session(s, h) is None,
    decreases s.len(),
{
    if s.len() == 0 {
    } else {
        lemma_lookup_none(s.drop_last(), h);
    }
}

proof fn lemma_lookup_exists(s: Seq<Session>, i: int, h: u64)
    requires
        0 <= i < s.len(),
        s[i].handle == h,
    ensures
        lookup_session(s, h) is Some,
    decreases s.len(),
{
    if s.last().handle == h {
    } else {
        assert(i < s.len() - 1);
        assert(s.drop_last()[i] == s[i]);
        lemma_lookup_exists(s.drop_last(), i, h);
    }
}

proof fn lemma_lookup_push(s: Seq<Session>, x: Session, h: u64)
    ensures
        x.handle == h ==> lookup_session(s.push(x), h) == Some(x),
        x.handle != h ==> lookup_session(s.push(x), h) == lookup_session(s, h),
{
    assert(s.push(x).drop_last() =~= s);
}

proof fn lemma_lookup_update(s: Seq<Session>, i: int, x: Session, h: u64)
    requires
        0 <= i < s.len(),
        s[i].handle == x.handle,
        handles_unique(s),
    ensures
        h == x.handle ==> lookup_session(s.update(i, x), h) == Some(x),
        h != x.handle ==> lookup_session(s.update(i, x), h) == lookup_session(s, h),
    decreases s.len(),
{
    let t = s.update(i, x);
    if i == s.len() - 1 {
        assert(t.drop_last() =~= s.drop_last());
        assert(t.last() == x);
        if h != x.handle {
            assert(s.last().handle == x.handle);
        }
    } else {
        assert(t.drop_last() =~= s.drop_last().update(i, x));
        assert(t.last() == s.last());
        assert(handles_unique(s.drop_last()));
        assert(s.drop_last()[i] == s[i]);
        lemma_lookup_update(s.drop_last(), i, x, h);
        if s.last().handle == h {
            assert(s[s.len() - 1].handle == h);
            assert(s[i].handle != h);
        }
    }
}

proof fn lemma_lookup_remove(s: Seq<Session>, i: int, h: u64)
    requires
        0 <= i < s.len(),
        handles_unique(s),
    ensures
        h == s[i].handle ==> lookup_session(s.remove(i), h) is None,
        h != s[i].handle ==> lookup_session(s.remove(i), h) == lookup_session(s, h),
    decreases s.len(),
{
    let t = s.remove(i);
    if i == s.len() - 1 {
        assert(t =~= s.drop_last());
        if h == s[i].handle {
            assert forall|j: int| 0 <= j < t.len() implies t[j].handle != h by {
                assert(s[j].handle != s[i].handle);
            }
            lemma_lookup_none(t, h);
        } else {
            assert(s.last().handle == s[i].handle);
        }
    } else {
        assert(t.drop_last() =~= s.drop_last().remove(i));
        assert(t.last() == s.last());
        assert(handles_unique(s.drop_last()));
        lemma_lookup_remove(s.drop_last(), i, h);
        if s.last().handle == h {
            assert(s[s.len() - 1].handle == h);
            assert(s[i].handle != h);
        }
    }
}

proof fn lemma_handles_unique_remove(s: Seq<Session>, i: int)
    requires
        0 <= i < s.len(),
        handles_unique(s),
    ensures
        handles_unique(s.remove(i)),
{
    let t = s.remove(i);
    assert forall|a: int, b: int| 0 <= a < b < t.len() implies t[a].handle != t[b].handle by {
        let a0 = if a < i {
            a
        } else {
            a + 1
        };
        let b0 = if b < i {
            b
        } else {
            b + 1
        };
        assert(t[a] == s[a0] && t[b] == s[b0]);
    }
}

/// The state of all active connections, with fast access in every direction
/// that the forwarding plane needs: who is publishing in which room, which
/// user owns which publisher, who subscribes to whom, and which users have
/// blocked each other.
#[derive(Debug)]
pub struct Switchboard {
    /// All active connections, whether or not they have joined a room.
    sessions: Vec<Session>,
    /// Edges room -> publisher handle, for every joined publisher.
    publishers_by_room: Vec<(RoomId, u64)>,
    /// Edges user -> publisher handle; at most one per user.
    publishers_by_user: Vec<(UserId, u64)>,
    /// Edges user -> subscriber handle, for every joined subscriber.
    subscribers_by_user: Vec<(UserId, u64)>,
    /// Which connections subscribe to traffic from which other connections.
    publisher_to_subscribers: BidirectionalMultimap<u64, u64>,
    /// Which users have blocked traffic to and from which other users.
    blockers_to_miscreants: BidirectionalMultimap<UserId, UserId>,
}

impl Switchboard {
    pub closed spec fn spec_sessions(self) -> Seq<Session> {
        self.sessions@
    }

    /// The session with handle `h`, if connected.
    pub closed spec fn spec_session(self, h: u64) -> Option<Session> {
        lookup_session(self.sessions@, h)
    }

    pub open spec fn has_session(self, h: u64) -> bool {
        self.spec_session(h) is Some
    }

    /// The join state of the session with handle `h`, if any.
    pub open spec fn spec_join_of(self, h: u64) -> Option<JoinState> {
        match self.spec_session(h) {
            Some(s) => s.state.spec_join_state(),
            None => None,
        }
    }

    pub open spec fn spec_subscription_of(self, h: u64) -> Option<Subscription> {
        match self.spec_session(h) {
            Some(s) => s.state.spec_subscription(),
            None => None,
        }
    }

    pub open spec fn spec_offer_of(self, h: u64) -> Option<String> {
        match self.spec_session(h) {
            Some(s) => s.state.spec_subscriber_offer(),
            None => None,
        }
    }

    /// The publisher handles indexed for user `u` (at most one when
    /// well-formed).
    pub closed spec fn spec_publishers_of(self, u: Seq<char>) -> Seq<u64> {
        assoc_values(self.publishers_by_user@, u)
    }

    /// The publisher handle of user `u`, if one is indexed.
    pub open spec fn spec_publisher_of(self, u: Seq<char>) -> Option<u64> {
        if self.spec_publishers_of(u).len() == 0 {
            None
        } else {
            Some(self.spec_publishers_of(u)[0])
        }
    }

    /// The publisher handles occupying room `r`, in join order.
    pub closed spec fn spec_room_list(self, r: Seq<char>) -> Seq<u64> {
        assoc_values(self.publishers_by_room@, r)
    }

    /// The subscriber handles of user `u`, in join order.
    pub closed spec fn spec_subs_of_user(self, u: Seq<char>) -> Seq<u64> {
        assoc_values(self.subscribers_by_user@, u)
    }

    /// The handles subscribed to traffic from publisher handle `p`.
    pub closed spec fn spec_subscribers_to(self, p: u64) -> Seq<u64> {
        self.publisher_to_subscribers.values(p)
    }

    /// The publisher handles whose traffic handle `s` subscribes to.
    pub closed spec fn spec_publishers_to(self, s: u64) -> Seq<u64> {
        self.publisher_to_subscribers.keys(s)
    }

    /// Whether user `a` has blocked user `b`.
    pub closed spec fn spec_blocks(self, a: Seq<char>, b: Seq<char>) -> bool {
        self.blockers_to_miscreants.maps(a, b)
    }

    /// Whether a block exists between `a` and `b` in either direction.
    pub open spec fn spec_blocked_either(self, a: Seq<char>, b: Seq<char>) -> bool {
        self.spec_blocks(a, b) || self.spec_blocks(b, a)
    }

    /// Whether some connected session has joined as user `u`.
    pub open spec fn spec_is_connected(self, u: Seq<char>) -> bool {
        exists|i: int|
            0 <= i < self.spec_sessions().len() && ((#[trigger] self.spec_sessions()[i]
                .state
                .spec_join_state()) matches Some(js) && js.user_id@ == u)
    }

    /// Well-formedness, maintained by every operation:
    /// no two sessions share a handle; each direction of each multimap
    /// mirrors the other; at most one publisher is indexed per user and a
    /// handle occupies at most one room slot; and every indexed handle
    /// belongs to a connected session whose immutable join state matches
    /// the index that holds it.
    pub closed spec fn wf(self) -> bool {
        &&& handles_unique(self.sessions@)
        &&& self.publisher_to_subscribers.wf()
        &&& self.blockers_to_miscreants.wf()
        &&& forall|u: Seq<char>| #[trigger] assoc_values(self.publishers_by_user@, u).len() <= 1
        &&& forall|r: Seq<char>, i: int, j: int|
            #![trigger assoc_values(self.publishers_by_room@, r)[i], assoc_values(self.publishers_by_room@, r)[j]]
            0 <= i < j < assoc_values(self.publishers_by_room@, r).len() ==> assoc_values(
                self.publishers_by_room@,
                r,
            )[i] != assoc_values(self.publishers_by_room@, r)[j]
        &&& forall|u: Seq<char>, h: u64|
            #[trigger] assoc_values(self.publishers_by_user@, u).contains(h) ==> {
                &&& self.spec_join_of(h) matches Some(js)
                &&& self.spec_join_of(h).unwrap().kind == JoinKind::Publisher
                &&& self.spec_join_of(h).unwrap().user_id@ == u
            }
        &&& forall|r: Seq<char>, h: u64|
            #[trigger] assoc_values(self.publishers_by_room@, r).contains(h) ==> {
                &&& self.spec_join_of(h) matches Some(js)
                &&& self.spec_join_of(h).unwrap().kind == JoinKind::Publisher
                &&& self.spec_join_of(h).unwrap().room_id@ == r
                &&& assoc_values(
                    self.publishers_by_user@,
                    self.spec_join_of(h).unwrap().user_id@,
                ).contains(h)
            }
        &&& forall|u: Seq<char>, h: u64|
            #[trigger] assoc_values(self.subscribers_by_user@, u).contains(h) ==> {
                &&& self.spec_join_of(h) matches Some(js)
                &&& self.spec_join_of(h).unwrap().kind == JoinKind::Subscriber
                &&& self.spec_join_of(h).unwrap().user_id@ == u
            }
    }

    pub fn new() -> (r: Self)
        ensures
            r.wf(),
            r.spec_sessions() == Seq::<Session>::empty(),
            forall|h: u64| (#[trigger] r.spec_session(h)) is None,
            forall|u: Seq<char>| #[trigger] r.spec_publishers_of(u) == Seq::<u64>::empty(),
            forall|rm: Seq<char>| #[trigger] r.spec_room_list(rm) == Seq::<u64>::empty(),
            forall|u: Seq<char>| #[trigger] r.spec_subs_of_user(u) == Seq::<u64>::empty(),
            forall|p: u64| #[trigger] r.spec_subscribers_to(p) == Seq::<u64>::empty(),
            forall|a: Seq<char>, b: Seq<char>| !(#[trigger] r.spec_blocks(a, b)),
    {
        let r = Self {
            sessions: Vec::new(),
            publishers_by_room: Vec::new(),
            publishers_by_user: Vec::new(),
            subscribers_by_user: Vec::new(),
            publisher_to_subscribers: BidirectionalMultimap::new(),
            blockers_to_miscreants: BidirectionalMultimap::new(),
        };
        r
    }

    /// Finds the position of the session with handle `h`.
    fn find_session(&self, h: u64) -> (r: Option<usize>)
        ensures
            r matches Some(i) ==> i < self.spec_sessions().len() && self.spec_sessions()[
                i as int
            ].handle == h && self.spec_session(h) == Some(self.spec_sessions()[i as int]),
            r is None ==> self.spec_session(h) is None,
    {
        let ghost full = self.sessions@;
        let mut i: usize = self.sessions.len();
        proof {
            assert(full.take(full.len() as int) =~= full);
        }
        while i > 0
            invariant
                i <= self.sessions@.len(),
                self.sessions@ == full,
                lookup_session(full, h) == lookup_session(full.take(i as int), h),
            decreases i,
        {
            i = i - 1;
            proof {
                assert(full.take(i as int + 1).drop_last() =~= full.take(i as int));
                assert(full.take(i as int + 1).last() == full[i as int]);
            }
            if self.sessions[i].handle == h {
                return Some(i);
            }
        }
        None
    }

    pub fn has_handle(&self, h: u64) -> (r: bool)
        ensures
            r == self.has_session(h),
    {
        self.find_session(h).is_some()
    }

    /// Adds a fresh connection. The handle must not be connected yet.
    pub fn connect(&mut self, session: Session)
        requires
            old(self).wf(),
            !old(self).has_session(session.handle),
        ensures
            final(self).wf(),
            final(self).spec_session(session.handle) == Some(session),
            forall|h2: u64|
                h2 != session.handle ==> #[trigger] final(self).spec_session(h2) == old(
                    self,
                ).spec_session(h2),
            same_indices(*old(self), *final(self)),
            same_edges(*old(self), *final(self)),
            same_blocks(*old(self), *final(self)),
    {
        let ghost old_sessions = self.sessions@;
        proof {
            assert forall|j: int|
                0 <= j < old_sessions.len() implies old_sessions[j].handle
                != session.handle by {
                if old_sessions[j].handle == session.handle {
                    lemma_lookup_exists(old_sessions, j, session.handle);
                }
            }
        }
        self.sessions.push(session);
        proof {
            assert forall|h2: u64| true implies #[trigger] lookup_session(
                self.sessions@,
                h2,
            ) == if h2 == session.handle {
                Some(session)
            } else {
                lookup_session(old_sessions, h2)
            } by {
                lemma_lookup_push(old_sessions, session, h2);
            }
        }
    }

    /// Removes the connection with handle `h` from the session list. The
    /// handle must already have been dropped from every index.
    pub fn disconnect(&mut self, h: u64)
        requires
            old(self).wf(),
            forall|u: Seq<char>| !(#[trigger] old(self).spec_publishers_of(u)).contains(h),
            forall|r: Seq<char>| !(#[trigger] old(self).spec_room_list(r)).contains(h),
            forall|u: Seq<char>| !(#[trigger] old(self).spec_subs_of_user(u)).contains(h),
        ensures
            final(self).wf(),
            final(self).spec_session(h) is None,
            forall|h2: u64|
                h2 != h ==> #[trigger] final(self).spec_session(h2) == old(self).spec_session(h2),
            same_indices(*old(self), *final(self)),
            same_edges(*old(self), *final(self)),
            same_blocks(*old(self), *final(self)),
    {
        let ghost old_sessions = self.sessions@;
        match self.find_session(h) {
            None => {
            },
            Some(i) => {
                let ghost gi = i as int;
                self.sessions.remove(i);
                proof {
                    lemma_handles_unique_remove(old_sessions, gi);
                    assert(old_sessions[gi].handle == h);
                    assert forall|h2: u64| true implies #[trigger] lookup_session(
                        self.sessions@,
                        h2,
                    ) == if h2 == h {
                        None::<Session>
                    } else {
                        lookup_session(old_sessions, h2)
                    } by {
                        lemma_lookup_remove(old_sessions, gi, h2);
                    }
                    assert forall|u: Seq<char>, h2: u64| #[trigger] assoc_values(
                        self.publishers_by_user@,
                        u,
                    ).contains(h2) implies {
                        &&& self.spec_join_of(h2) matches Some(js)
                        &&& self.spec_join_of(h2).unwrap().kind == JoinKind::Publisher
                        &&& self.spec_join_of(h2).unwrap().user_id@ == u
                    } by {
                        assert(assoc_values(old(self).publishers_by_user@, u).contains(h2));
                        assert(!old(self).spec_publishers_of(u).contains(h));
                        assert(h2 != h);
                    }
                    assert forall|r: Seq<char>, h2: u64| #[trigger] assoc_values(
                        self.publishers_by_room@,
                        r,
                    ).contains(h2) implies {
                        &&& self.spec_join_of(h2) matches Some(js)
                        &&& self.spec_join_of(h2).unwrap().kind == JoinKind::Publisher
                        &&& self.spec_join_of(h2).unwrap().room_id@ == r
                        &&& assoc_values(
                            self.publishers_by_user@,
                            self.spec_join_of(h2).unwrap().user_id@,
                        ).contains(h2)
                    } by {
                        assert(assoc_values(old(self).publishers_by_room@, r).contains(h2));
                        assert(!old(self).spec_room_list(r).contains(h));
                        assert(h2 != h);
                    }
                    assert forall|u: Seq<char>, h2: u64| #[trigger] assoc_values(
                        self.subscribers_by_user@,
                        u,
                    ).contains(h2) implies {
                        &&& self.spec_join_of(h2) matches Some(js)
                        &&& self.spec_join_of(h2).unwrap().kind == JoinKind::Subscriber
                        &&& self.spec_join_of(h2).unwrap().user_id@ == u
                    } by {
                        assert(assoc_values(old(self).subscribers_by_user@, u).contains(h2));
                        assert(!old(self).spec_subs_of_user(u).contains(h));
                        assert(h2 != h);
                    }
                }
            },
        }
    }

    /// Whether any connected session has joined as the given user.
    pub fn is_connected(&self, user: &UserId) -> (r: bool)
        ensures
            r == self.spec_is_connected(user@),
    {
        let mut i: usize = 0;
        while i < self.sessions.len()
            invariant
                i <= self.sessions@.len(),
                forall|j: int|
                    0 <= j < i as int ==> !((#[trigger] self.spec_sessions()[j]
                        .state
                        .spec_join_state()) matches Some(js) && js.user_id@ == user@),
            decreases self.sessions@.len() - i,
        {
            match self.sessions[i].state.join_state() {
                Some(js) => {
                    if js.user_id.id_eq(user) {
                        return true;
                    }
                },
                None => {},
            }
            i = i + 1;
        }
        false
    }

    /// The join state of the session with handle `h`, if any.
    pub fn join_state_of(&self, h: u64) -> (r: Option<JoinState>)
        ensures
            r == self.spec_join_of(h),
    {
        match self.find_session(h) {
            None => None,
            Some(i) => match self.sessions[i].state.join_state() {
                None => None,
                Some(js) => Some(clone_join_state(js)),
            },
        }
    }

    /// The subscription of the session with handle `h`, if any.
    pub fn subscription_of(&self, h: u64) -> (r: Option<Subscription>)
        ensures
            r == self.spec_subscription_of(h),
    {
        match self.find_session(h) {
            None => None,
            Some(i) => match self.sessions[i].state.subscription() {
                None => None,
                Some(w) => Some(clone_subscription(w)),
            },
        }
    }

    /// The stored subscriber offer of the session with handle `h`, if any.
    pub fn subscriber_offer_of(&self, h: u64) -> (r: Option<String>)
        ensures
            r == self.spec_offer_of(h),
    {
        match self.find_session(h) {
            None => None,
            Some(i) => clone_opt_string(self.sessions[i].state.subscriber_offer()),
        }
    }

    /// Stores the join state of session `h`, exactly once: a second attempt
    /// fails and changes nothing.
    pub fn set_join_state_of(&mut self, h: u64, js: JoinState) -> (r: Result<(), JoinState>)
        requires
            old(self).wf(),
            old(self).has_session(h),
        ensures
            final(self).wf(),
            old(self).spec_join_of(h) is None ==> (r is Ok && final(self).spec_join_of(h)
                == Some(js)),
            old(self).spec_join_of(h) is Some ==> (r == Err::<(), JoinState>(js) && final(self).spec_join_of(h) == old(self).spec_join_of(h) && final(self).spec_session(h)
                == old(self).spec_session(h)),
            final(self).has_session(h),
            final(self).spec_subscription_of(h) == old(self).spec_subscription_of(h),
            final(self).spec_offer_of(h) == old(self).spec_offer_of(h),
            forall|h2: u64|
                h2 != h ==> #[trigger] final(self).spec_session(h2) == old(self).spec_session(h2),
            same_indices(*old(self), *final(self)),
            same_edges(*old(self), *final(self)),
            same_blocks(*old(self), *final(self)),
    {
        let ghost old_sessions = self.sessions@;
        let i = match self.find_session(h) {
            Some(i) => i,
            None => {
                proof {
                    assert(false);
                }
                return Err(js);
            },
        };
        let r = self.sessions[i].state.set_join_state(js);
        proof {
            let upd = self.sessions@[i as int];
            assert(self.sessions@ == old_sessions.update(i as int, upd));
            assert forall|h2: u64| true implies #[trigger] lookup_session(self.sessions@, h2)
                == if h2 == h {
                Some(upd)
            } else {
                lookup_session(old_sessions, h2)
            } by {
                lemma_lookup_update(old_sessions, i as int, upd, h2);
            }
            self.lemma_wf_after_session_update(*old(self), h);
        }
        r
    }

    /// Stores the subscription of session `h`, exactly once: a second
    /// attempt fails and changes nothing.
    pub fn set_subscription_of(&mut self, h: u64, what: Subscription) -> (r: Result<
        (),
        Subscription,
    >)
        requires
            old(self).wf(),
            old(self).has_session(h),
        ensures
            final(self).wf(),
            old(self).spec_subscription_of(h) is None ==> (r is Ok && final(self).spec_subscription_of(h) == Some(what)),
            old(self).spec_subscription_of(h) is Some ==> (r == Err::<(), Subscription>(what)
                && final(self).spec_subscription_of(h) == old(self).spec_subscription_of(h)
                && final(self).spec_session(h) == old(self).spec_session(h)),
            final(self).has_session(h),
            final(self).spec_join_of(h) == old(self).spec_join_of(h),
            final(self).spec_offer_of(h) == old(self).spec_offer_of(h),
            forall|h2: u64|
                h2 != h ==> #[trigger] final(self).spec_session(h2) == old(self).spec_session(h2),
            same_indices(*old(self), *final(self)),
            same_edges(*old(self), *final(self)),
            same_blocks(*old(self), *final(self)),
    {
        let ghost old_sessions = self.sessions@;
        let i = match self.find_session(h) {
            Some(i) => i,
            None => {
                proof {
                    assert(false);
                }
                return Err(what);
            },
        };
        let r = self.sessions[i].state.set_subscription(what);
        proof {
            let upd = self.sessions@[i as int];
            assert(self.sessions@ == old_sessions.update(i as int, upd));
            assert forall|h2: u64| true implies #[trigger] lookup_session(self.sessions@, h2)
                == if h2 == h {
                Some(upd)
            } else {
                lookup_session(old_sessions, h2)
            } by {
                lemma_lookup_update(old_sessions, i as int, upd, h2);
            }
            self.lemma_wf_after_session_update(*old(self), h);
        }
        r
    }

    /// Stores the canonical subscriber offer of session `h`, replacing any
    /// previously stored one.
    pub fn set_subscriber_offer_of(&mut self, h: u64, sdp: String)
        requires
            old(self).wf(),
            old(self).has_session(h),
        ensures
            final(self).wf(),
            final(self).spec_offer_of(h) == Some(sdp),
            final(self).has_session(h),
            final(self).spec_join_of(h) == old(self).spec_join_of(h),
            final(self).spec_subscription_of(h) == old(self).spec_subscription_of(h),
            forall|h2: u64|
                h2 != h ==> #[trigger] final(self).spec_session(h2) == old(self).spec_session(h2),
            forall|h2: u64| #[trigger]
                final(self).spec_offer_of(h2) == if h2 == h {
                    Some(sdp)
                } else {
                    old(self).spec_offer_of(h2)
                },
            same_indices(*old(self), *final(self)),
            same_edges(*old(self), *final(self)),
            same_blocks(*old(self), *final(self)),
    {
        let ghost old_sessions = self.sessions@;
        let i = match self.find_session(h) {
            Some(i) => i,
            None => {
                proof {
                    assert(false);
                }
                return ;
            },
        };
        self.sessions[i].state.set_subscriber_offer(sdp);
        proof {
            let upd = self.sessions@[i as int];
            assert(self.sessions@ == old_sessions.update(i as int, upd));
            assert forall|h2: u64| true implies #[trigger] lookup_session(self.sessions@, h2)
                == if h2 == h {
                Some(upd)
            } else {
                lookup_session(old_sessions, h2)
            } by {
                lemma_lookup_update(old_sessions, i as int, upd, h2);
            }
            self.lemma_wf_after_session_update(*old(self), h);
        }
    }

    /// Hands out the next FIR sequence number of session `h`.
    pub fn next_fir_seq_of(&mut self, h: u64) -> (r: u64)
        requires
            old(self).wf(),
            old(self).has_session(h),
        ensures
            final(self).wf(),
            final(self).has_session(h),
            final(self).spec_join_of(h) == old(self).spec_join_of(h),
            final(self).spec_subscription_of(h) == old(self).spec_subscription_of(h),
            final(self).spec_offer_of(h) == old(self).spec_offer_of(h),
            r == old(self).spec_session(h).unwrap().state.spec_fir_seq(),
            r == u64::MAX ==> final(self).spec_session(h).unwrap().state.spec_fir_seq() == 0,
            r != u64::MAX ==> final(self).spec_session(h).unwrap().state.spec_fir_seq() == r + 1,
            forall|h2: u64|
                h2 != h ==> #[trigger] final(self).spec_session(h2) == old(self).spec_session(h2),
            same_indices(*old(self), *final(self)),
            same_edges(*old(self), *final(self)),
            same_blocks(*old(self), *final(self)),
    {
        let ghost old_sessions = self.sessions@;
        let i = match self.find_session(h) {
            Some(i) => i,
            None => {
                proof {
                    assert(false);
                }
                return 0;
            },
        };
        let r = self.sessions[i].state.next_fir_seq();
        proof {
            let upd = self.sessions@[i as int];
            assert(self.sessions@ == old_sessions.update(i as int, upd));
            assert forall|h2: u64| true implies #[trigger] lookup_session(self.sessions@, h2)
                == if h2 == h {
                Some(upd)
            } else {
                lookup_session(old_sessions, h2)
            } by {
                lemma_lookup_update(old_sessions, i as int, upd, h2);
            }
            self.lemma_wf_after_session_update(*old(self), h);
        }
        r
    }

    /// Re-establishes well-formedness after the session with handle `h` was
    /// replaced by one with the same handle and the same join state.
    proof fn lemma_wf_after_session_update(&self, prior: Switchboard, h: u64)
        requires
            prior.wf(),
            self.publishers_by_user@ == prior.publishers_by_user@,
            self.publishers_by_room@ == prior.publishers_by_room@,
            self.subscribers_by_user@ == prior.subscribers_by_user@,
            self.publisher_to_subscribers == prior.publisher_to_subscribers,
            self.blockers_to_miscreants == prior.blockers_to_miscreants,
            handles_unique(self.sessions@),
            prior.spec_join_of(h) is Some ==> self.spec_join_of(h) == prior.spec_join_of(h),
            forall|h2: u64|
                h2 != h ==> #[trigger] self.spec_session(h2) == prior.spec_session(h2),
        ensures
            self.wf(),
    {
        assert forall|h2: u64|
            prior.spec_join_of(h2) is Some implies #[trigger] self.spec_join_of(h2)
            == prior.spec_join_of(h2) by {
            if h2 != h {
                assert(self.spec_session(h2) == prior.spec_session(h2));
            }
        }
    }

    /// Records that `from` has blocked `target`.
    pub fn establish_block(&mut self, from: UserId, target: UserId)
        requires
            old(self).wf(),
        ensures
            final(self).wf(),
            forall|x: Seq<char>, y: Seq<char>| #[trigger]
                final(self).spec_blocks(x, y) <==> (old(self).spec_blocks(x, y) || (x == from@ && y
                    == target@)),
            same_sessions(*old(self), *final(self)),
            same_indices(*old(self), *final(self)),
            same_edges(*old(self), *final(self)),
    {
        let ghost prior = self.blockers_to_miscreants;
        self.blockers_to_miscreants.associate(from, target);
        proof {
            assert forall|x: Seq<char>, y: Seq<char>| #[trigger]
                self.spec_blocks(x, y) <==> (prior.maps(x, y) || (x == from@ && y
                    == target@)) by {
                if x == from@ {
                    assert(self.blockers_to_miscreants.values(x) == prior.values(x).push(
                        target@,
                    ));
                    lemma_contains_append_one(prior.values(x), target@, y);
                    assert(prior.values(x).push(target@) =~= prior.values(x) + seq![target@]);
                } else {
                    assert(self.blockers_to_miscreants.values(x) == prior.values(x));
                }
            }
        }
    }

    /// Removes any block `from` has placed on `target`.
    pub fn lift_block(&mut self, from: &UserId, target: &UserId)
        requires
            old(self).wf(),
        ensures
            final(self).wf(),
            forall|x: Seq<char>, y: Seq<char>| #[trigger]
                final(self).spec_blocks(x, y) <==> (old(self).spec_blocks(x, y) && !(x == from@ && y
                    == target@)),
            same_sessions(*old(self), *final(self)),
            same_indices(*old(self), *final(self)),
            same_edges(*old(self), *final(self)),
    {
        let ghost prior = self.blockers_to_miscreants;
        self.blockers_to_miscreants.disassociate(from, target);
        proof {
            assert forall|x: Seq<char>, y: Seq<char>| #[trigger]
                self.spec_blocks(x, y) <==> (prior.maps(x, y) && !(x == from@ && y
                    == target@)) by {
                if x == from@ {
                    assert(self.blockers_to_miscreants.values(x) == without(
                        prior.values(x),
                        target@,
                    ));
                    lemma_without_contains(prior.values(x), target@, y);
                } else {
                    assert(self.blockers_to_miscreants.values(x) == prior.values(x));
                }
            }
        }
    }

    /// The publisher handle indexed for the given user, if any.
    pub fn get_publisher(&self, user: &UserId) -> (r: Option<u64>)
        requires
            self.wf(),
        ensures
            r == self.spec_publisher_of(user@),
    {
        let ghost full = self.publishers_by_user@;
        let mut i: usize = 0;
        while i < self.publishers_by_user.len()
            invariant
                self.wf(),
                self.publishers_by_user@ == full,
                i <= full.len(),
                assoc_values(full.take(i as int), user@) == Seq::<u64>::empty(),
            decreases full.len() - i,
        {
            proof {
                assert(full.take(i as int + 1).drop_last() =~= full.take(i as int));
                assert(full.take(i as int + 1).last() == full[i as int]);
            }
            let p = &self.publishers_by_user[i];
            if p.0.id_eq(user) {
                proof {
                    assert(full =~= full.take(i as int + 1) + full.skip(i as int + 1));
                    lemma_assoc_concat(full.take(i as int + 1), full.skip(i as int + 1), user@);
                    assert(assoc_values(full.take(i as int + 1), user@) =~= seq![
                        full[i as int].1@,
                    ]);
                    assert(self.spec_publishers_of(user@).len() <= 1);
                    assert(assoc_values(full.skip(i as int + 1), user@).len() == 0);
                    assert(self.spec_publishers_of(user@) =~= seq![full[i as int].1@]);
                }
                return Some(p.1);
            }
            proof {
                assert(assoc_values(full.take(i as int + 1), user@) =~= Seq::<u64>::empty());
            }
            i = i + 1;
        }
        proof {
            assert(full.take(full.len() as int) =~= full);
        }
        None
    }

    /// The subscriber handles of the given user, in join order.
    pub fn get_subscribers(&self, user: &UserId) -> (r: Vec<u64>)
        ensures
            r@ == self.spec_subs_of_user(user@),
    {
        let ghost full = self.subscribers_by_user@;
        let mut r: Vec<u64> = Vec::new();
        let mut i: usize = 0;
        while i < self.subscribers_by_user.len()
            invariant
                self.subscribers_by_user@ == full,
                i <= full.len(),
                r@ == assoc_values(full.take(i as int), user@),
            decreases full.len() - i,
        {
            proof {
                assert(full.take(i as int + 1).drop_last() =~= full.take(i as int));
                assert(full.take(i as int + 1).last() == full[i as int]);
            }
            let p = &self.subscribers_by_user[i];
            if p.0.id_eq(user) {
                r.push(p.1);
                proof {
                    assert(r@ =~= assoc_values(full.take(i as int), user@) + seq![
                        full[i as int].1@,
                    ]);
                }
            } else {
                proof {
                    assert(assoc_values(full.take(i as int + 1), user@) =~= assoc_values(
                        full.take(i as int),
                        user@,
                    ));
                }
            }
            i = i + 1;
        }
        proof {
            assert(full.take(full.len() as int) =~= full);
        }
        r
    }

    /// The publisher handles occupying the given room, in join order.
    pub fn publishers_occupying(&self, room: &RoomId) -> (r: Vec<u64>)
        ensures
            r@ == self.spec_room_list(room@),
    {
        let ghost full = self.publishers_by_room@;
        let mut r: Vec<u64> = Vec::new();
        let mut i: usize = 0;
        while i < self.publishers_by_room.len()
            invariant
                self.publishers_by_room@ == full,
                i <= full.len(),
                r@ == assoc_values(full.take(i as int), room@),
            decreases full.len() - i,
        {
            proof {
                assert(full.take(i as int + 1).drop_last() =~= full.take(i as int));
                assert(full.take(i as int + 1).last() == full[i as int]);
            }
            let p = &self.publishers_by_room[i];
            if p.0.id_eq(room) {
                r.push(p.1);
                proof {
                    assert(r@ =~= assoc_values(full.take(i as int), room@) + seq![
                        full[i as int].1@,
                    ]);
                }
            } else {
                proof {
                    assert(assoc_values(full.take(i as int + 1), room@) =~= assoc_values(
                        full.take(i as int),
                        room@,
                    ));
                }
            }
            i = i + 1;
        }
        proof {
            assert(full.take(full.len() as int) =~= full);
        }
        r
    }

    /// The handles subscribed to traffic from the given publisher handle.
    pub fn subscribers_to(&self, publisher: u64) -> (r: Vec<u64>)
        ensures
            r@ == self.spec_subscribers_to(publisher),
    {
        let r = self.publisher_to_subscribers.get_values(&publisher);
        proof {
            assert(r@ =~= r@.map_values(|x: u64| x@));
        }
        r
    }

    /// The publisher handles whose traffic the given handle subscribes to.
    pub fn publishers_to(&self, subscriber: u64) -> (r: Vec<u64>)
        ensures
            r@ == self.spec_publishers_to(subscriber),
    {
        let r = self.publisher_to_subscribers.get_keys(&subscriber);
        proof {
            assert(r@ =~= r@.map_values(|x: u64| x@));
        }
        r
    }

    /// Every user that currently has a publisher, in join order.
    pub fn get_all_users(&self) -> (r: Vec<UserId>)
        ensures
            r@.map_values(|u: UserId| u@) == self.spec_all_users(),
    {
        let ghost full = self.publishers_by_user@;
        let mut r: Vec<UserId> = Vec::new();
        let mut i: usize = 0;
        while i < self.publishers_by_user.len()
            invariant
                self.publishers_by_user@ == full,
                i <= full.len(),
                r@.len() == i,
                forall|k: int| 0 <= k < i as int ==> (#[trigger] r@[k]) == full[k].0,
            decreases full.len() - i,
        {
            let entry = &self.publishers_by_user[i];
            r.push(entry.0.id_clone());
            i = i + 1;
        }
        proof {
            assert(r@.map_values(|u: UserId| u@) =~= full.map_values(|p: (UserId, u64)| p.0@));
        }
        r
    }

    /// The users that currently have a publisher, as views.
    pub closed spec fn spec_all_users(self) -> Seq<Seq<char>> {
        self.publishers_by_user@.map_values(|p: (UserId, u64)| p.0@)
    }

    /// Indexes a joined publisher session: records it as its user's
    /// publisher and adds it to its room, unless the user already has a
    /// publisher, in which case nothing changes.
    pub fn join_publisher(&mut self, h: u64, user: UserId, room: RoomId)
        requires
            old(self).wf(),
            old(self).spec_join_of(h) matches Some(js) && js.kind == JoinKind::Publisher
                && js.user_id@ == user@ && js.room_id@ == room@,
        ensures
            final(self).wf(),
            same_sessions(*old(self), *final(self)),
            same_edges(*old(self), *final(self)),
            same_blocks(*old(self), *final(self)),
            old(self).spec_publisher_of(user@) is Some ==> same_indices(
                *old(self),
                *final(self),
            ),
            old(self).spec_publisher_of(user@) is None ==> {
                &&& forall|u2: Seq<char>| #[trigger]
                    final(self).spec_publishers_of(u2) == if u2 == user@ {
                        seq![h]
                    } else {
                        old(self).spec_publishers_of(u2)
                    }
                &&& forall|r2: Seq<char>| #[trigger]
                    final(self).spec_room_list(r2) == if r2 == room@ {
                        old(self).spec_room_list(r2).push(h)
                    } else {
                        old(self).spec_room_list(r2)
                    }
                &&& forall|u2: Seq<char>| #[trigger]
                    final(self).spec_subs_of_user(u2) == old(self).spec_subs_of_user(u2)
            },
            final(self).spec_publisher_of(user@) is Some,
    {
        let ghost old_pbu = self.publishers_by_user@;
        let ghost old_pbr = self.publishers_by_room@;
        if self.get_publisher(&user).is_some() {
            return ;
        }
        proof {
            // the handle is not in any room yet: every room entry is tied
            // to a publishers-by-user entry, and this user has none
            assert(assoc_values(old_pbu, user@).len() == 0);
            assert forall|r2: Seq<char>| !(#[trigger] assoc_values(old_pbr, r2)).contains(h) by {
                if assoc_values(old_pbr, r2).contains(h) {
                    assert(assoc_values(
                        old_pbu,
                        old(self).spec_join_of(h).unwrap().user_id@,
                    ).contains(h));
                }
            }
        }
        self.publishers_by_user.push((user, h));
        self.publishers_by_room.push((room, h));
        proof {
            assert(self.publishers_by_user@ == old_pbu.push((user, h)));
            assert(self.publishers_by_room@ == old_pbr.push((room, h)));
            assert forall|u2: Seq<char>| true implies #[trigger] assoc_values(
                self.publishers_by_user@,
                u2,
            ) == if u2 == user@ {
                seq![h]
            } else {
                assoc_values(old_pbu, u2)
            } by {
                lemma_assoc_values_push(old_pbu, (user, h), u2);
                if u2 == user@ {
                    assert(assoc_values(old_pbu, u2) =~= Seq::<u64>::empty());
                    assert(Seq::<u64>::empty().push(h) =~= seq![h]);
                }
            }
            assert forall|r2: Seq<char>| true implies #[trigger] assoc_values(
                self.publishers_by_room@,
                r2,
            ) == if r2 == room@ {
                assoc_values(old_pbr, r2).push(h)
            } else {
                assoc_values(old_pbr, r2)
            } by {
                lemma_assoc_values_push(old_pbr, (room, h), r2);
            }
            assert(self.sessions@ == old(self).sessions@);
            assert forall|u2: Seq<char>, h2: u64| #[trigger] assoc_values(
                self.publishers_by_user@,
                u2,
            ).contains(h2) implies {
                &&& self.spec_join_of(h2) matches Some(js2)
                &&& self.spec_join_of(h2).unwrap().kind == JoinKind::Publisher
                &&& self.spec_join_of(h2).unwrap().user_id@ == u2
            } by {
                if u2 == user@ {
                    assert(assoc_values(self.publishers_by_user@, u2) == seq![h]);
                    assert(seq![h][0] == h);
                    assert(h2 == h);
                } else {
                    assert(assoc_values(old_pbu, u2).contains(h2));
                }
            }
            assert forall|r2: Seq<char>, h2: u64| #[trigger] assoc_values(
                self.publishers_by_room@,
                r2,
            ).contains(h2) implies {
                &&& self.spec_join_of(h2) matches Some(js2)
                &&& self.spec_join_of(h2).unwrap().kind == JoinKind::Publisher
                &&& self.spec_join_of(h2).unwrap().room_id@ == r2
                &&& assoc_values(
                    self.publishers_by_user@,
                    self.spec_join_of(h2).unwrap().user_id@,
                ).contains(h2)
            } by {
                if r2 == room@ {
                    assert(assoc_values(self.publishers_by_room@, r2) == assoc_values(
                        old_pbr,
                        r2,
                    ).push(h));
                    assert(assoc_values(old_pbr, r2).push(h) =~= assoc_values(old_pbr, r2)
                        + seq![h]);
                    lemma_contains_append_one(assoc_values(old_pbr, r2), h, h2);
                    if h2 == h {
                        assert(assoc_values(self.publishers_by_user@, user@).contains(h)) by {
                            assert(assoc_values(self.publishers_by_user@, user@) == seq![h]);
                            assert(seq![h][0] == h);
                        }
                    } else {
                        assert(assoc_values(old_pbr, r2).contains(h2));
                        let uu = self.spec_join_of(h2).unwrap().user_id@;
                        assert(assoc_values(old_pbu, uu).contains(h2));
                        assert(uu != user@) by {
                            if uu == user@ {
                                assert(assoc_values(old_pbu, uu).len() == 0);
                            }
                        }
                    }
                } else {
                    assert(assoc_values(old_pbr, r2).contains(h2));
                    let uu = self.spec_join_of(h2).unwrap().user_id@;
                    assert(assoc_values(old_pbu, uu).contains(h2));
                    assert(uu != user@) by {
                        if uu == user@ {
                            assert(assoc_values(old_pbu, uu).len() == 0);
                        }
                    }
                }
            }
            assert forall|u2: Seq<char>, h2: u64| #[trigger] assoc_values(
                self.subscribers_by_user@,
                u2,
            ).contains(h2) implies {
                &&& self.spec_join_of(h2) matches Some(js2)
                &&& self.spec_join_of(h2).unwrap().kind == JoinKind::Subscriber
                &&& self.spec_join_of(h2).unwrap().user_id@ == u2
            } by {
                assert(assoc_values(old(self).subscribers_by_user@, u2).contains(h2));
            }
            // distinctness of each room list survives: the pushed handle
            // was in no room
            assert forall|r2: Seq<char>, i: int, j: int|
                #![trigger assoc_values(self.publishers_by_room@, r2)[i], assoc_values(self.publishers_by_room@, r2)[j]]
                0 <= i < j < assoc_values(self.publishers_by_room@, r2).len()
                    implies assoc_values(self.publishers_by_room@, r2)[i] != assoc_values(
                self.publishers_by_room@,
                r2,
            )[j] by {
                let oldl = assoc_values(old_pbr, r2);
                if r2 == room@ {
                    assert(assoc_values(self.publishers_by_room@, r2) == oldl.push(h));
                    if j == oldl.len() {
                        assert(oldl[i] != h) by {
                            if oldl[i] == h {
                                assert(oldl.contains(h));
                            }
                        }
                    }
                }
            }
        }
    }

    /// Indexes a joined subscriber session under its user.
    pub fn join_subscriber(&mut self, h: u64, user: UserId, _room: RoomId)
        requires
            old(self).wf(),
            old(self).spec_join_of(h) matches Some(js) && js.kind == JoinKind::Subscriber
                && js.user_id@ == user@,
        ensures
            final(self).wf(),
            same_sessions(*old(self), *final(self)),
            same_edges(*old(self), *final(self)),
            same_blocks(*old(self), *final(self)),
            forall|u2: Seq<char>| #[trigger]
                final(self).spec_subs_of_user(u2) == if u2 == user@ {
                    old(self).spec_subs_of_user(u2).push(h)
                } else {
                    old(self).spec_subs_of_user(u2)
                },
            forall|u2: Seq<char>| #[trigger]
                final(self).spec_publishers_of(u2) == old(self).spec_publishers_of(u2),
            forall|r2: Seq<char>| #[trigger]
                final(self).spec_room_list(r2) == old(self).spec_room_list(r2),
    {
        let ghost old_sbu = self.subscribers_by_user@;
        self.subscribers_by_user.push((user, h));
        proof {
            assert(self.subscribers_by_user@ == old_sbu.push((user, h)));
            assert forall|u2: Seq<char>| true implies #[trigger] assoc_values(
                self.subscribers_by_user@,
                u2,
            ) == if u2 == user@ {
                assoc_values(old_sbu, u2).push(h)
            } else {
                assoc_values(old_sbu, u2)
            } by {
                lemma_assoc_values_push(old_sbu, (user, h), u2);
            }
            assert forall|u2: Seq<char>, h2: u64| #[trigger] assoc_values(
                self.subscribers_by_user@,
                u2,
            ).contains(h2) implies {
                &&& self.spec_join_of(h2) matches Some(js2)
                &&& self.spec_join_of(h2).unwrap().kind == JoinKind::Subscriber
                &&& self.spec_join_of(h2).unwrap().user_id@ == u2
            } by {
                if u2 == user@ {
                    assert(assoc_values(self.subscribers_by_user@, u2) =~= assoc_values(
                        old_sbu,
                        u2,
                    ) + seq![h]);
                    lemma_contains_append_one(assoc_values(old_sbu, u2), h, h2);
                    if h2 != h {
                        assert(assoc_values(old_sbu, u2).contains(h2));
                    }
                } else {
                    assert(assoc_values(old_sbu, u2).contains(h2));
                }
            }
        }
    }

    /// Drops a publisher session from every index: its subscription edges,
    /// its slot as its user's publisher, and its place in its room.
    pub fn leave_publisher(&mut self, h: u64)
        requires
            old(self).wf(),
        ensures
            final(self).wf(),
            same_sessions(*old(self), *final(self)),
            same_blocks(*old(self), *final(self)),
            forall|u2: Seq<char>| #[trigger]
                final(self).spec_publishers_of(u2) == without(
                    old(self).spec_publishers_of(u2),
                    h,
                ),
            forall|r2: Seq<char>| #[trigger]
                final(self).spec_room_list(r2) == without(old(self).spec_room_list(r2), h),
            forall|u2: Seq<char>| #[trigger]
                final(self).spec_subs_of_user(u2) == old(self).spec_subs_of_user(u2),
            forall|p: u64| #[trigger]
                final(self).spec_subscribers_to(p) == if p == h {
                    Seq::<u64>::empty()
                } else {
                    old(self).spec_subscribers_to(p)
                },
            forall|h2: u64| #[trigger]
                final(self).spec_publishers_to(h2) == without(old(self).spec_publishers_to(h2), h),
            forall|u2: Seq<char>|
                old(self).spec_publisher_of(u2) == Some(h) ==> (#[trigger] final(self).spec_publisher_of(u2)) is None,
    {
        self.publisher_to_subscribers.remove_key(&h);
        let ghost old_pbu = self.publishers_by_user@;
        let mut new_pbu: Vec<(UserId, u64)> = Vec::new();
        let mut i: usize = 0;
        while i < self.publishers_by_user.len()
            invariant
                i <= self.publishers_by_user@.len(),
                self.publishers_by_user@ == old_pbu,
                new_pbu@ == drop_sec(old_pbu.take(i as int), h),
            decreases self.publishers_by_user@.len() - i,
        {
            let p = &self.publishers_by_user[i];
            let ghost prefix = old_pbu.take(i as int);
            proof {
                assert(old_pbu.take(i as int + 1).drop_last() =~= prefix);
                assert(old_pbu.take(i as int + 1).last() == old_pbu[i as int]);
            }
            if !p.1.id_eq(&h) {
                new_pbu.push((p.0.id_clone(), p.1));
                proof {
                    assert(new_pbu@ =~= drop_sec(prefix, h) + seq![old_pbu[i as int]]);
                    assert(drop_sec(old_pbu.take(i as int + 1), h) =~= drop_sec(prefix, h)
                        + seq![old_pbu[i as int]]);
                }
            } else {
                proof {
                    assert(drop_sec(old_pbu.take(i as int + 1), h) =~= drop_sec(prefix, h)
                        + Seq::<(UserId, u64)>::empty());
                    assert(drop_sec(prefix, h) + Seq::<(UserId, u64)>::empty() =~= drop_sec(
                        prefix,
                        h,
                    ));
                }
            }
            i = i + 1;
        }
        proof {
            assert(old_pbu.take(old_pbu.len() as int) =~= old_pbu);
        }
        self.publishers_by_user = new_pbu;

        let ghost old_pbr = self.publishers_by_room@;
        let mut new_pbr: Vec<(RoomId, u64)> = Vec::new();
        let mut j: usize = 0;
        while j < self.publishers_by_room.len()
            invariant
                j <= self.publishers_by_room@.len(),
                self.publishers_by_room@ == old_pbr,
                new_pbr@ == drop_sec(old_pbr.take(j as int), h),
            decreases self.publishers_by_room@.len() - j,
        {
            let p = &self.publishers_by_room[j];
            let ghost prefix = old_pbr.take(j as int);
            proof {
                assert(old_pbr.take(j as int + 1).drop_last() =~= prefix);
                assert(old_pbr.take(j as int + 1).last() == old_pbr[j as int]);
            }
            if !p.1.id_eq(&h) {
                new_pbr.push((p.0.id_clone(), p.1));
                proof {
                    assert(new_pbr@ =~= drop_sec(prefix, h) + seq![old_pbr[j as int]]);
                    assert(drop_sec(old_pbr.take(j as int + 1), h) =~= drop_sec(prefix, h)
                        + seq![old_pbr[j as int]]);
                }
            } else {
                proof {
                    assert(drop_sec(old_pbr.take(j as int + 1), h) =~= drop_sec(prefix, h)
                        + Seq::<(RoomId, u64)>::empty());
                    assert(drop_sec(prefix, h) + Seq::<(RoomId, u64)>::empty() =~= drop_sec(
                        prefix,
                        h,
                    ));
                }
            }
            j = j + 1;
        }
        proof {
            assert(old_pbr.take(old_pbr.len() as int) =~= old_pbr);
        }
        self.publishers_by_room = new_pbr;

        proof {
            assert forall|u2: Seq<char>| true implies #[trigger] assoc_values(
                self.publishers_by_user@,
                u2,
            ) == without(assoc_values(old_pbu, u2), h) by {
                lemma_assoc_drop_sec(old_pbu, h, u2);
            }
            assert forall|r2: Seq<char>| true implies #[trigger] assoc_values(
                self.publishers_by_room@,
                r2,
            ) == without(assoc_values(old_pbr, r2), h) by {
                lemma_assoc_drop_sec(old_pbr, h, r2);
            }
            assert forall|u2: Seq<char>| true implies (#[trigger] assoc_values(
                self.publishers_by_user@,
                u2,
            )).len() <= 1 by {
                lemma_without_len(assoc_values(old_pbu, u2), h);
            }
            assert forall|r2: Seq<char>, i2: int, j2: int|
                #![trigger assoc_values(self.publishers_by_room@, r2)[i2], assoc_values(self.publishers_by_room@, r2)[j2]]
                0 <= i2 < j2 < assoc_values(self.publishers_by_room@, r2).len()
                    implies assoc_values(self.publishers_by_room@, r2)[i2] != assoc_values(
                self.publishers_by_room@,
                r2,
            )[j2] by {
                lemma_without_nodup(assoc_values(old_pbr, r2), h);
            }
            assert forall|u2: Seq<char>, h2: u64| #[trigger] assoc_values(
                self.publishers_by_user@,
                u2,
            ).contains(h2) implies {
                &&& self.spec_join_of(h2) matches Some(js2)
                &&& self.spec_join_of(h2).unwrap().kind == JoinKind::Publisher
                &&& self.spec_join_of(h2).unwrap().user_id@ == u2
            } by {
                lemma_without_contains(assoc_values(old_pbu, u2), h, h2);
                assert(assoc_values(old_pbu, u2).contains(h2));
            }
            assert forall|r2: Seq<char>, h2: u64| #[trigger] assoc_values(
                self.publishers_by_room@,
                r2,
            ).contains(h2) implies {
                &&& self.spec_join_of(h2) matches Some(js2)
                &&& self.spec_join_of(h2).unwrap().kind == JoinKind::Publisher
                &&& self.spec_join_of(h2).unwrap().room_id@ == r2
                &&& assoc_values(
                    self.publishers_by_user@,
                    self.spec_join_of(h2).unwrap().user_id@,
                ).contains(h2)
            } by {
                lemma_without_contains(assoc_values(old_pbr, r2), h, h2);
                assert(assoc_values(old_pbr, r2).contains(h2));
                let uu = self.spec_join_of(h2).unwrap().user_id@;
                assert(assoc_values(old_pbu, uu).contains(h2));
                lemma_without_contains(assoc_values(old_pbu, uu), h, h2);
            }
            assert forall|u2: Seq<char>|
                old(self).spec_publisher_of(u2) == Some(h) implies (#[trigger] self.spec_publisher_of(u2)) is None by {
                let l = assoc_values(old_pbu, u2);
                assert(l.len() <= 1);
                assert(l.len() >= 1 && l[0] == h);
                assert(l =~= seq![h]);
                if without(l, h).len() > 0 {
                    let e = without(l, h)[0];
                    assert(without(l, h).contains(e));
                    lemma_without_contains(l, h, e);
                    assert(l.contains(e));
                    let k = choose|k: int| 0 <= k < l.len() && l[k] == e;
                    assert(l[0] == e);
                }
                assert(without(l, h).len() == 0);
            }
        }
    }

    /// Drops a subscriber session from every index: its subscription edges
    /// in both roles and its slot under its user.
    pub fn leave_subscriber(&mut self, h: u64)
        requires
            old(self).wf(),
        ensures
            final(self).wf(),
            same_sessions(*old(self), *final(self)),
            same_blocks(*old(self), *final(self)),
            forall|u2: Seq<char>| #[trigger]
                final(self).spec_publishers_of(u2) == old(self).spec_publishers_of(u2),
            forall|r2: Seq<char>| #[trigger]
                final(self).spec_room_list(r2) == old(self).spec_room_list(r2),
            forall|u2: Seq<char>| #[trigger]
                final(self).spec_subs_of_user(u2) == without(old(self).spec_subs_of_user(u2), h),
            forall|p: u64| #[trigger]
                final(self).spec_subscribers_to(p) == without(old(self).spec_subscribers_to(p), h),
            forall|h2: u64| #[trigger]
                final(self).spec_publishers_to(h2) == if h2 == h {
                    Seq::<u64>::empty()
                } else {
                    old(self).spec_publishers_to(h2)
                },
    {
        self.publisher_to_subscribers.remove_value(&h);
        let ghost old_sbu = self.subscribers_by_user@;
        let mut new_sbu: Vec<(UserId, u64)> = Vec::new();
        let mut i: usize = 0;
        while i < self.subscribers_by_user.len()
            invariant
                i <= self.subscribers_by_user@.len(),
                self.subscribers_by_user@ == old_sbu,
                new_sbu@ == drop_sec(old_sbu.take(i as int), h),
            decreases self.subscribers_by_user@.len() - i,
        {
            let p = &self.subscribers_by_user[i];
            let ghost prefix = old_sbu.take(i as int);
            proof {
                assert(old_sbu.take(i as int + 1).drop_last() =~= prefix);
                assert(old_sbu.take(i as int + 1).last() == old_sbu[i as int]);
            }
            if !p.1.id_eq(&h) {
                new_sbu.push((p.0.id_clone(), p.1));
                proof {
                    assert(new_sbu@ =~= drop_sec(prefix, h) + seq![old_sbu[i as int]]);
                    assert(drop_sec(old_sbu.take(i as int + 1), h) =~= drop_sec(prefix, h)
                        + seq![old_sbu[i as int]]);
                }
            } else {
                proof {
                    assert(drop_sec(old_sbu.take(i as int + 1), h) =~= drop_sec(prefix, h)
                        + Seq::<(UserId, u64)>::empty());
                    assert(drop_sec(prefix, h) + Seq::<(UserId, u64)>::empty() =~= drop_sec(
                        prefix,
                        h,
                    ));
                }
            }
            i = i + 1;
        }
        proof {
            assert(old_sbu.take(old_sbu.len() as int) =~= old_sbu);
        }
        self.subscribers_by_user = new_sbu;

        proof {
            assert forall|u2: Seq<char>| true implies #[trigger] assoc_values(
                self.subscribers_by_user@,
                u2,
            ) == without(assoc_values(old_sbu, u2), h) by {
                lemma_assoc_drop_sec(old_sbu, h, u2);
            }
            assert forall|u2: Seq<char>, h2: u64| #[trigger] assoc_values(
                self.subscribers_by_user@,
                u2,
            ).contains(h2) implies {
                &&& self.spec_join_of(h2) matches Some(js2)
                &&& self.spec_join_of(h2).unwrap().kind == JoinKind::Subscriber
                &&& self.spec_join_of(h2).unwrap().user_id@ == u2
            } by {
                lemma_without_contains(assoc_values(old_sbu, u2), h, h2);
                assert(assoc_values(old_sbu, u2).contains(h2));
            }
        }
    }

    /// Records that `subscriber` subscribes to traffic from `publisher`.
    pub fn subscribe_to_user(&mut self, subscriber: u64, publisher: u64)
        requires
            old(self).wf(),
        ensures
            final(self).wf(),
            forall|p: u64| #[trigger]
                final(self).spec_subscribers_to(p) == if p == publisher {
                    old(self).spec_subscribers_to(p).push(subscriber)
                } else {
                    old(self).spec_subscribers_to(p)
                },
            forall|h2: u64| #[trigger]
                final(self).spec_publishers_to(h2) == if h2 == subscriber {
                    old(self).spec_publishers_to(h2).push(publisher)
                } else {
                    old(self).spec_publishers_to(h2)
                },
            same_sessions(*old(self), *final(self)),
            same_indices(*old(self), *final(self)),
            same_blocks(*old(self), *final(self)),
    {
        self.publisher_to_subscribers.associate(publisher, subscriber);
    }
}

} // verus!
