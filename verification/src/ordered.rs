//! Ordered maps keyed by integers: their keys in order, and the keys within a range.
use std::collections::BTreeMap;
use vstd::prelude::*;

verus! {

/// The keys are in ascending order, each once.
pub open spec fn ascending(keys: Seq<u64>) -> bool {
    forall|i: int, j: int| 0 <= i < j < keys.len() ==> keys[i] < keys[j]
}

/// `keys` are the keys of `m`, in ascending order.
pub open spec fn are_keys<V>(m: Map<u64, V>, keys: Seq<u64>) -> bool {
    &&& ascending(keys)
    &&& forall|k: u64| m.contains_key(k) <==> keys.contains(k)
}

/// `keys` are the keys of `m` from `lo` to `hi`, in ascending order.
pub open spec fn are_keys_in<V>(m: Map<u64, V>, lo: u64, hi: u64, keys: Seq<u64>) -> bool {
    &&& ascending(keys)
    &&& forall|k: u64| (m.contains_key(k) && lo <= k <= hi) <==> keys.contains(k)
}

/// `r` is the least key of `m` from `lo` to `hi`, if there is one.
pub open spec fn is_least_in<V>(m: Map<u64, V>, lo: u64, hi: u64, r: Option<u64>) -> bool {
    match r {
        None => forall|k: u64| m.contains_key(k) ==> !(lo <= k <= hi),
        Some(x) => {
            &&& m.contains_key(x)
            &&& lo <= x <= hi
            &&& forall|k: u64| m.contains_key(k) && lo <= k <= hi ==> x <= k
        },
    }
}

/// `r` is the greatest key of `m` from `lo` to `hi`, if there is one.
pub open spec fn is_greatest_in<V>(m: Map<u64, V>, lo: u64, hi: u64, r: Option<u64>) -> bool {
    match r {
        None => forall|k: u64| m.contains_key(k) ==> !(lo <= k <= hi),
        Some(x) => {
            &&& m.contains_key(x)
            &&& lo <= x <= hi
            &&& forall|k: u64| m.contains_key(k) && lo <= k <= hi ==> k <= x
        },
    }
}

/// The keys of a map, in ascending order.
pub fn sorted_keys<V>(m: &BTreeMap<u64, V>) -> (keys: Vec<u64>)
    ensures
        are_keys(m@, keys@),
{
    let mut keys: Vec<u64> = Vec::new();
    let iter = m.iter();
    proof {
        broadcast use vstd::laws_cmp::group_laws_cmp;

        assert(vstd::laws_cmp::obeys_cmp::<u64>());
        let ks = vstd::std_specs::iter::IteratorSpec::remaining(&iter).map_values(
            |kv: (&u64, &V)| *kv.0,
        );
        assert(vstd::std_specs::btree::increasing_seq(ks));
        assert forall|i: int, j: int| 0 <= i < j < ks.len() implies ks[i] < ks[j] by {
            assert(vstd::std_specs::cmp::OrdSpec::cmp_spec(&ks[i], &ks[j]) is Less);
        }
    }
    for entry in it: iter
        invariant
            keys@.len() == it.index(),
            forall|i: int| 0 <= i < it.index() ==> keys@[i] == *(#[trigger] it.seq()[i]).0,
            it.seq() == vstd::std_specs::iter::IteratorSpec::remaining(&m.iter()),
            ascending(it.seq().map_values(|kv: (&u64, &V)| *kv.0)),
    {
        keys.push(*entry.0);
    }
    proof {
        let v = vstd::std_specs::iter::IteratorSpec::remaining(&m.iter());
        let ks = v.map_values(|kv: (&u64, &V)| *kv.0);
        assert(ks =~= keys@);
        assert(ascending(keys@));
        assert forall|k: u64| m@.contains_key(k) <==> keys@.contains(k) by {
            if m@.contains_key(k) {
                assert(v.contains((&k, &m@[k])));
                let i = v.index_of((&k, &m@[k]));
                assert(keys@[i] == k);
            }
            if keys@.contains(k) {
                let i = keys@.index_of(k);
                assert(m@.contains_key(*v[i].0));
            }
        }
    }
    keys
}

/// The keys of a map from `lo` to `hi`, in ascending order.
pub fn keys_in<V>(m: &BTreeMap<u64, V>, lo: u64, hi: u64) -> (r: Vec<u64>)
    ensures
        are_keys_in(m@, lo, hi, r@),
{
    let keys: Vec<u64> = sorted_keys(m);
    let mut r: Vec<u64> = Vec::new();
    let mut i: usize = 0;
    while i < keys.len()
        invariant
            i <= keys@.len(),
            are_keys(m@, keys@),
            ascending(r@),
            forall|a: int, b: int|
                #![trigger r@[a], keys@[b]]
                0 <= a < r@.len() && i <= b < keys@.len() ==> r@[a] < keys@[b],
            forall|k: u64| #[trigger]
                r@.contains(k) <==> (lo <= k <= hi && keys@.take(i as int).contains(k)),
        decreases keys@.len() - i,
    {
        let k: u64 = keys[i];
        let ghost before = r@;
        proof {
            assert(keys@.take(i + 1) =~= keys@.take(i as int).push(k));
        }
        if lo <= k && k <= hi {
            r.push(k);
            proof {
                assert forall|x: u64| #[trigger] r@.contains(x) <==> (before.contains(x) || x
                    == k) by {
                    if before.contains(x) {
                        let j = before.index_of(x);
                        assert(r@[j] == x);
                    }
                    if x == k {
                        assert(r@[before.len() as int] == x);
                    }
                    if r@.contains(x) {
                        let j = r@.index_of(x);
                        if j < before.len() {
                            assert(before[j] == x);
                        }
                    }
                }
            }
        }
        proof {
            assert forall|x: u64| keys@.take(i + 1).contains(x) <==> (keys@.take(
                i as int,
            ).contains(x) || x == k) by {
                let p = keys@.take(i as int);
                if p.contains(x) {
                    let j = p.index_of(x);
                    assert(keys@.take(i + 1)[j] == x);
                }
                if x == k {
                    assert(keys@.take(i + 1)[i as int] == x);
                }
                if keys@.take(i + 1).contains(x) {
                    let j = keys@.take(i + 1).index_of(x);
                    if j < i {
                        assert(p[j] == x);
                    }
                }
            }
        }
        i += 1;
    }
    proof {
        assert(keys@.take(keys@.len() as int) =~= keys@);
    }
    r
}

/// The least key of a map from `lo` to `hi`, if there is one.
pub fn least_in<V>(m: &BTreeMap<u64, V>, lo: u64, hi: u64) -> (r: Option<u64>)
    ensures
        is_least_in(m@, lo, hi, r),
{
    let keys: Vec<u64> = keys_in(m, lo, hi);
    if keys.len() == 0 {
        proof {
            assert forall|k: u64| m@.contains_key(k) implies !(lo <= k <= hi) by {
                assert(!keys@.contains(k));
            }
        }
        return None;
    }
    proof {
        assert(keys@.contains(keys@[0]));
        assert forall|k: u64| m@.contains_key(k) && lo <= k <= hi implies keys@[0] <= k by {
            assert(keys@.contains(k));
            let j = keys@.index_of(k);
            assert(keys@[j] == k);
        }
    }
    Some(keys[0])
}

/// The greatest key of a map from `lo` to `hi`, if there is one.
pub fn greatest_in<V>(m: &BTreeMap<u64, V>, lo: u64, hi: u64) -> (r: Option<u64>)
    ensures
        is_greatest_in(m@, lo, hi, r),
{
    let keys: Vec<u64> = keys_in(m, lo, hi);
    let n: usize = keys.len();
    if n == 0 {
        proof {
            assert forall|k: u64| m@.contains_key(k) implies !(lo <= k <= hi) by {
                assert(!keys@.contains(k));
            }
        }
        return None;
    }
    proof {
        assert(keys@.contains(keys@[n - 1]));
        assert forall|k: u64| m@.contains_key(k) && lo <= k <= hi implies k <= keys@[n - 1] by {
            assert(keys@.contains(k));
            let j = keys@.index_of(k);
            assert(keys@[j] == k);
        }
    }
    Some(keys[n - 1])
}

} // verus!
