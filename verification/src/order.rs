//! Listing a set in increasing order.
use std::collections::BTreeMap;
use vstd::laws_cmp::obeys_cmp;
use vstd::prelude::*;
use vstd::std_specs::btree::{increasing_seq, key_obeys_cmp_spec};
use vstd::std_specs::cmp::OrdSpec;
use vstd::std_specs::iter::IteratorSpec;

verus! {

/// Whether each item of `s` stands before all that follow it.
pub open spec fn increasing<T>(s: Seq<T>, less: spec_fn(T, T) -> bool) -> bool {
    forall|i: int, j: int| 0 <= i < j < s.len() ==> less(#[trigger] s[i], #[trigger] s[j])
}

/// Whether no two items stand before each other.
pub open spec fn one_way<T>(less: spec_fn(T, T) -> bool) -> bool {
    forall|a: T, b: T| #[trigger] less(a, b) ==> !less(b, a)
}

/// Whether `s` holds exactly the members of `members`, in increasing order.
pub open spec fn lists<T>(s: Seq<T>, members: Set<T>, less: spec_fn(T, T) -> bool) -> bool {
    &&& increasing(s, less)
    &&& forall|x: T| #[trigger] s.contains(x) <==> members.contains(x)
}

/// The members of `members` in increasing order.
pub open spec fn listing<T>(members: Set<T>, less: spec_fn(T, T) -> bool) -> Seq<T> {
    choose|s: Seq<T>| lists(s, members, less)
}

proof fn lemma_same_listing<T>(a: Seq<T>, b: Seq<T>, less: spec_fn(T, T) -> bool)
    requires
        one_way(less),
        increasing(a, less),
        increasing(b, less),
        forall|x: T| #[trigger] a.contains(x) <==> b.contains(x),
    ensures
        a == b,
    decreases a.len(),
{
    if a.len() == 0 {
        if b.len() > 0 {
            assert(b.contains(b[0]));
            assert(a.contains(b[0]));
        }
        assert(a =~= b);
    } else {
        assert(a.contains(a[0]));
        let k = choose|k: int| 0 <= k < b.len() && b[k] == a[0];
        assert(b.contains(b[0]));
        assert(a.contains(b[0]));
        let j = choose|j: int| 0 <= j < a.len() && a[j] == b[0];
        if k > 0 {
            assert(less(b[0], b[k]));
            if j > 0 {
                assert(less(a[0], a[j]));
            }
        }
        assert(a[0] == b[0]);
        let at = a.skip(1);
        let bt = b.skip(1);
        assert forall|x: T| #[trigger] at.contains(x) <==> bt.contains(x) by {
            if at.contains(x) {
                let i = choose|i: int| 0 <= i < at.len() && at[i] == x;
                assert(a[i + 1] == x);
                assert(a.contains(x));
                let m = choose|m: int| 0 <= m < b.len() && b[m] == x;
                assert(less(a[0], a[i + 1]));
                assert(m > 0);
                assert(bt[m - 1] == x);
            }
            if bt.contains(x) {
                let i = choose|i: int| 0 <= i < bt.len() && bt[i] == x;
                assert(b[i + 1] == x);
                assert(b.contains(x));
                assert(a.contains(x));
                let m = choose|m: int| 0 <= m < a.len() && a[m] == x;
                assert(less(b[0], b[i + 1]));
                assert(m > 0);
                assert(at[m - 1] == x);
            }
        }
        assert forall|i: int, j: int| 0 <= i < j < at.len() implies less(
            #[trigger] at[i],
            #[trigger] at[j],
        ) by {
            assert(less(a[i + 1], a[j + 1]));
        }
        assert forall|i: int, j: int| 0 <= i < j < bt.len() implies less(
            #[trigger] bt[i],
            #[trigger] bt[j],
        ) by {
            assert(less(b[i + 1], b[j + 1]));
        }
        lemma_same_listing(at, bt, less);
        assert(a =~= seq![a[0]] + at);
        assert(b =~= seq![b[0]] + bt);
    }
}

/// There is but one listing.
pub proof fn lemma_listing_is<T>(s: Seq<T>, members: Set<T>, less: spec_fn(T, T) -> bool)
    requires
        one_way(less),
        lists(s, members, less),
    ensures
        listing(members, less) == s,
{
    let other = listing(members, less);
    assert(lists(other, members, less));
    assert forall|x: T| #[trigger] s.contains(x) <==> other.contains(x) by {
        assert(s.contains(x) <==> members.contains(x));
    }
    lemma_same_listing(s, other, less);
}

/// Whether `less` orders all values, and stands by itself.
pub open spec fn total_order<T>(less: spec_fn(T, T) -> bool) -> bool {
    &&& one_way(less)
    &&& forall|a: T, b: T| a == b || #[trigger] less(a, b) || less(b, a)
    &&& forall|a: T, b: T, c: T| #[trigger]
        less(a, b) && #[trigger] less(b, c) ==> less(a, c)
}

proof fn lemma_place<T>(s: Seq<T>, x: T, less: spec_fn(T, T) -> bool) -> (k: int)
    requires
        total_order(less),
        increasing(s, less),
        !s.contains(x),
    ensures
        0 <= k <= s.len(),
        forall|i: int| 0 <= i < k ==> less(#[trigger] s[i], x),
        forall|i: int| k <= i < s.len() ==> less(x, #[trigger] s[i]),
    decreases s.len(),
{
    if s.len() == 0 {
        0
    } else {
        let shorter = s.drop_last();
        let n = s.len() - 1;
        assert forall|i: int, j: int| 0 <= i < j < shorter.len() implies less(
            #[trigger] shorter[i],
            #[trigger] shorter[j],
        ) by {
            assert(less(s[i], s[j]));
        }
        if shorter.contains(x) {
            let i = choose|i: int| 0 <= i < shorter.len() && shorter[i] == x;
            assert(s[i] == x);
        }
        assert(s.contains(s[n]));
        if less(s[n], x) {
            assert forall|i: int| 0 <= i < s.len() implies less(#[trigger] s[i], x) by {
                if i < n {
                    assert(less(s[i], s[n]));
                }
            }
            s.len() as int
        } else {
            assert(less(x, s[n]));
            let k = lemma_place(shorter, x, less);
            assert forall|i: int| 0 <= i < k implies less(#[trigger] s[i], x) by {
                assert(shorter[i] == s[i]);
            }
            assert forall|i: int| k <= i < s.len() implies less(x, #[trigger] s[i]) by {
                if i < n {
                    assert(shorter[i] == s[i]);
                }
            }
            k
        }
    }
}

/// Every finite set has a listing.
pub proof fn lemma_listing_exists<T>(members: Set<T>, less: spec_fn(T, T) -> bool)
    requires
        total_order(less),
        members.finite(),
    ensures
        lists(listing(members, less), members, less),
    decreases members.len(),
{
    if members.is_empty() {
        let s = Seq::<T>::empty();
        assert forall|x: T| #[trigger] s.contains(x) <==> members.contains(x) by {}
        assert(lists(s, members, less));
    } else {
        let x = members.choose();
        let fewer = members.remove(x);
        lemma_listing_exists(fewer, less);
        let s = listing(fewer, less);
        assert(!s.contains(x));
        let k = lemma_place(s, x, less);
        let t = s.insert(k, x);
        assert forall|y: T| #[trigger] t.contains(y) <==> members.contains(y) by {
            assert(s.contains(y) <==> fewer.contains(y));
            if t.contains(y) {
                let j = choose|j: int| 0 <= j < t.len() && t[j] == y;
                if j < k {
                    assert(s[j] == y);
                } else if j > k {
                    assert(s[j - 1] == y);
                }
            }
            if s.contains(y) {
                let j = choose|j: int| 0 <= j < s.len() && s[j] == y;
                if j < k {
                    assert(t[j] == y);
                } else {
                    assert(t[j + 1] == y);
                }
            }
            assert(t[k] == x);
        }
        assert forall|i: int, j: int| 0 <= i < j < t.len() implies less(
            #[trigger] t[i],
            #[trigger] t[j],
        ) by {
            let i0 = if i < k {
                i
            } else {
                i - 1
            };
            let j0 = if j < k {
                j
            } else {
                j - 1
            };
            if i == k {
                assert(t[j] == s[j0]);
            } else if j == k {
                assert(t[i] == s[i0]);
            } else {
                assert(t[i] == s[i0] && t[j] == s[j0]);
                assert(less(s[i0], s[j0]));
            }
        }
        assert(lists(t, members, less));
    }
}

/// The order of pids.
pub open spec fn pid_less() -> spec_fn(i32, i32) -> bool {
    |a: i32, b: i32| a < b
}

/// The order of the lines of the status file: by generation, and by pid within one.
pub open spec fn entry_less() -> spec_fn((u64, i32), (u64, i32)) -> bool {
    |a: (u64, i32), b: (u64, i32)| a.0 < b.0 || (a.0 == b.0 && a.1 < b.1)
}

proof fn lemma_pid_keys()
    ensures
        obeys_cmp::<i32>(),
        key_obeys_cmp_spec::<i32>(),
{
    broadcast use vstd::laws_cmp::group_laws_cmp;
    broadcast use vstd::std_specs::btree::group_btree_axioms;

    assert(obeys_cmp::<i32>());
}

proof fn lemma_increasing_pids(s: Seq<i32>)
    requires
        increasing_seq(s),
    ensures
        increasing(s, pid_less()),
{
    broadcast use vstd::std_specs::btree::group_btree_axioms;

    lemma_pid_keys();
    assert forall|i: int, j: int| 0 <= i < j < s.len() implies pid_less()(
        #[trigger] s[i],
        #[trigger] s[j],
    ) by {
        assert(s[i].cmp_spec(&s[j]) is Less);
    }
}

/// The keys of `map`, in increasing order.
pub fn pids_of(map: &BTreeMap<i32, u64>) -> (r: Vec<i32>)
    ensures
        lists(r@, map@.dom(), pid_less()),
        r@ == listing(map@.dom(), pid_less()),
{
    broadcast use vstd::std_specs::btree::group_btree_axioms;

    proof {
        lemma_pid_keys();
    }
    let mut r: Vec<i32> = Vec::new();
    let ghost pairs = map.iter().remaining();
    for pair in it: map.iter()
        invariant
            it.seq() == pairs,
            r@.len() == it.index(),
            forall|i: int| 0 <= i < r@.len() ==> #[trigger] r@[i] == *pairs[i].0,
    {
        r.push(*pair.0);
    }
    proof {
        assert(r@ =~= pairs.map_values(|kv: (&i32, &u64)| *kv.0));
        lemma_increasing_pids(r@);
        assert forall|pid: i32| #[trigger] r@.contains(pid) <==> map@.dom().contains(pid) by {
            if r@.contains(pid) {
                let i = choose|i: int| 0 <= i < r@.len() && r@[i] == pid;
                assert(map@.contains_key(*pairs[i].0));
            }
            if map@.contains_key(pid) {
                assert(pairs.contains((&pid, &map@[pid])));
                let i = choose|i: int| 0 <= i < pairs.len() && pairs[i] == (&pid, &map@[pid]);
                assert(r@[i] == pid);
            }
        }
        lemma_listing_is(r@, map@.dom(), pid_less());
    }
    r
}

/// The generation of the worker `pid`.
pub fn generation_of(map: &BTreeMap<i32, u64>, pid: i32) -> (r: u64)
    requires
        map@.contains_key(pid),
    ensures
        r == map@[pid],
{
    broadcast use vstd::std_specs::btree::group_btree_axioms;

    proof {
        lemma_pid_keys();
    }
    *map.get(&pid).unwrap()
}

/// Notes the worker `pid` with its generation.
pub fn add_worker(map: &mut BTreeMap<i32, u64>, pid: i32, generation: u64)
    ensures
        final(map)@ == old(map)@.insert(pid, generation),
{
    proof {
        lemma_pid_keys();
    }
    map.insert(pid, generation);
}

/// Forgets the worker `pid`, and says whether it was there.
pub fn remove_worker(map: &mut BTreeMap<i32, u64>, pid: i32) -> (r: bool)
    ensures
        r == old(map)@.contains_key(pid),
        final(map)@ == old(map)@.remove(pid),
{
    broadcast use vstd::std_specs::btree::group_btree_axioms;

    proof {
        lemma_pid_keys();
    }
    map.remove(&pid).is_some()
}

} // verus!
