//! Choosing among distances.
//!
//! A distance reaches this module as a key: an unsigned integer that orders
//! the way the distance does. For a number that is not negative, the bit
//! pattern of its binary floating-point encoding is such a key. The functions
//! here compare keys and never look inside them.
//!
//! The few numbers that the library hands out itself are named here by their
//! bit patterns.

use vstd::prelude::*;

verus! {

/// The key of a distance that is not finite. Keys at or above it stand for
/// points that cannot be reached.
pub const UNREACHABLE: u64 = 0x7FF0_0000_0000_0000;

/// The double-precision number one, by its bit pattern.
pub const ONE: u64 = 0x3FF0_0000_0000_0000;

/// The double-precision number zero, by its bit pattern.
pub const ZERO: u64 = 0;

/// `best` is the position that `nearest` picks among `keys`: the first
/// position of the least key, provided that key is below `UNREACHABLE`;
/// position 0 where no key is.
pub open spec fn is_nearest(keys: Seq<u64>, best: int) -> bool {
    if exists|j: int| 0 <= j < keys.len() && keys[j] < UNREACHABLE {
        &&& 0 <= best < keys.len()
        &&& keys[best] < UNREACHABLE
        &&& forall|j: int| 0 <= j < keys.len() ==> keys[best] <= keys[j]
        &&& forall|j: int| 0 <= j < best ==> keys[best] < keys[j]
    } else {
        best == 0
    }
}

/// No two positions meet `is_nearest` for the same keys.
pub proof fn lemma_nearest_is_unique(keys: Seq<u64>, a: int, b: int)
    requires
        is_nearest(keys, a),
        is_nearest(keys, b),
    ensures
        a == b,
{
}

/// The position of the nearest of the points whose distances have the keys
/// `keys`. Among equally near points the first wins; where every point is
/// unreachable, or there is none, the answer is 0.
pub fn nearest(keys: &Vec<u64>) -> (best: usize)
    ensures
        is_nearest(keys@, best as int),
{
    let mut best: usize = 0;
    let mut least: u64 = UNREACHABLE;
    let mut j: usize = 0;
    while j < keys.len()
        invariant
            j <= keys.len(),
            least <= UNREACHABLE,
            forall|i: int| 0 <= i < j ==> least <= keys@[i],
            least == UNREACHABLE ==> best == 0,
            least < UNREACHABLE ==> best < j && keys@[best as int] == least && forall|i: int|
                0 <= i < best ==> least < keys@[i],
        decreases keys.len() - j,
    {
        if keys[j] < least {
            least = keys[j];
            best = j;
        }
        j += 1;
    }
    best
}

/// Point `a` comes before point `b` when points are lined up by distance and,
/// among points at the same distance, by position.
pub open spec fn closer(keys: Seq<u32>, a: int, b: int) -> bool {
    keys[a] < keys[b] || (keys[a] == keys[b] && a < b)
}

/// `chosen` lists the first `count` points of that line-up, nearest first.
pub open spec fn are_nearest(keys: Seq<u32>, count: nat, chosen: Seq<usize>) -> bool {
    &&& chosen.len() == count
    &&& forall|t: int| 0 <= t < chosen.len() ==> (#[trigger] chosen[t]) < keys.len()
    &&& forall|s: int, t: int|
        0 <= s < t < chosen.len() ==> closer(keys, #[trigger] chosen[s] as int, #[trigger] chosen[t] as int)
    &&& forall|t: int, j: usize|
        0 <= t < chosen.len() && j < keys.len() && !(#[trigger] chosen.contains(j)) ==> closer(
            keys,
            #[trigger] chosen[t] as int,
            j as int,
        )
}

/// The smaller of two counts.
pub open spec fn at_most(a: nat, b: nat) -> nat {
    if a <= b {
        a
    } else {
        b
    }
}

/// The positions of the `k` nearest of the points whose distances have the
/// keys `keys`, nearest first; all of them where there are fewer than `k`.
/// Points at the same distance come in the order of their positions.
pub fn nearest_neighbors(keys: &Vec<u32>, k: usize) -> (chosen: Vec<usize>)
    ensures
        are_nearest(keys@, at_most(k as nat, keys@.len()), chosen@),
{
    let mut chosen: Vec<usize> = Vec::new();
    let mut j: usize = 0;
    while j < keys.len()
        invariant
            j <= keys.len(),
            are_nearest(keys@.take(j as int), at_most(k as nat, j as nat), chosen@),
            chosen@.len() < k ==> forall|i: usize| i < j ==> #[trigger] chosen@.contains(i),
        decreases keys.len() - j,
    {
        let ghost before = chosen@;
        let ghost seen = keys@.take(j as int);
        let key = keys[j];
        // Where the new point belongs: behind every point that is at most as far.
        let mut p: usize = chosen.len();
        while p > 0 && keys[chosen[p - 1]] > key
            invariant
                p <= chosen.len(),
                chosen@ == before,
                j < keys.len(),
                key == keys@[j as int],
                are_nearest(seen, at_most(k as nat, j as nat), chosen@),
                seen == keys@.take(j as int),
                forall|t: int| p <= t < chosen.len() ==> keys@[chosen@[t] as int] > key,
            decreases p,
        {
            p -= 1;
        }
        assert(forall|t: int| 0 <= t < p ==> keys@[#[trigger] before[t] as int] <= key) by {
            if p > 0 {
                assert forall|t: int| 0 <= t < p implies keys@[#[trigger] before[t] as int]
                    <= key by {
                    if t < p - 1 {
                        assert(closer(seen, before[t] as int, before[p - 1] as int));
                    }
                }
            }
        }
        if p < k {
            chosen.insert(p, j);
            assert(chosen@ == before.insert(p as int, j));
            if chosen.len() > k {
                chosen.pop();
                proof {
                    lemma_insert_then_drop(keys@, j as int, k as nat, before, p as int);
                }
            } else {
                proof {
                    lemma_insert(keys@, j as int, k as nat, before, p as int);
                }
            }
        } else {
            proof {
                lemma_skip(keys@, j as int, k as nat, before);
            }
        }
        j += 1;
    }
    assert(keys@.take(j as int) == keys@);
    chosen
}

/// No point is nearer than the first that is chosen. So where some point lies
/// at distance zero, whose key is 0, the first neighbour does too.
pub proof fn lemma_first_is_nearest(keys: Seq<u32>, count: nat, chosen: Seq<usize>, j: usize)
    requires
        are_nearest(keys, count, chosen),
        count > 0,
        j < keys.len(),
    ensures
        keys[chosen[0] as int] <= keys[j as int],
        keys[j as int] == 0 ==> keys[chosen[0] as int] == 0,
{
    if chosen.contains(j) {
        let t = choose|t: int| 0 <= t < chosen.len() && chosen[t] == j;
        if t > 0 {
            assert(closer(keys, chosen[0] as int, chosen[t] as int));
        }
    } else {
        assert(closer(keys, chosen[0] as int, j as int));
    }
}

/// Only one list meets `are_nearest` for given keys and a given count.
pub proof fn lemma_nearest_are_unique(keys: Seq<u32>, count: nat, a: Seq<usize>, b: Seq<usize>)
    requires
        are_nearest(keys, count, a),
        are_nearest(keys, count, b),
    ensures
        a == b,
{
    lemma_same_prefix(keys, count, a, b, count as int);
    assert(a =~= b);
}

/// Two lists that meet `are_nearest` agree on their first `n` places.
proof fn lemma_same_prefix(keys: Seq<u32>, count: nat, a: Seq<usize>, b: Seq<usize>, n: int)
    requires
        are_nearest(keys, count, a),
        are_nearest(keys, count, b),
        0 <= n <= count,
    ensures
        forall|t: int| 0 <= t < n ==> a[t] == b[t],
    decreases n,
{
    if n > 0 {
        lemma_same_prefix(keys, count, a, b, n - 1);
        let t = n - 1;
        if a[t] != b[t] {
            lemma_not_before(keys, count, a, b, t);
            lemma_not_before(keys, count, b, a, t);
        }
    }
}

/// Where two lists that meet `are_nearest` agree before place `t` and differ
/// at it, the point that `b` has there comes before the one that `a` has.
proof fn lemma_not_before(keys: Seq<u32>, count: nat, a: Seq<usize>, b: Seq<usize>, t: int)
    requires
        are_nearest(keys, count, a),
        are_nearest(keys, count, b),
        0 <= t < count,
        forall|s: int| 0 <= s < t ==> a[s] == b[s],
        a[t] != b[t],
    ensures
        closer(keys, b[t] as int, a[t] as int),
{
    if b.contains(a[t]) {
        let s = choose|s: int| 0 <= s < b.len() && b[s] == a[t];
        if s < t {
            assert(closer(keys, a[s] as int, a[t] as int));
        } else {
            assert(closer(keys, b[t] as int, b[s] as int));
        }
    } else {
        assert(a[t] < keys.len());
    }
}

/// The point at position `j` is farther than all `k` points kept so far: they
/// stay the nearest once it is counted in.
proof fn lemma_skip(keys: Seq<u32>, j: int, k: nat, before: Seq<usize>)
    requires
        0 <= j < keys.len(),
        are_nearest(keys.take(j), at_most(k, j as nat), before),
        before.len() == k,
        forall|t: int| 0 <= t < before.len() ==> keys[#[trigger] before[t] as int] <= keys[j],
    ensures
        are_nearest(keys.take(j + 1), at_most(k, (j + 1) as nat), before),
{
    let seen = keys.take(j);
    let next = keys.take(j + 1);
    assert forall|s: int, t: int| 0 <= s < t < before.len() implies closer(
        next,
        #[trigger] before[s] as int,
        #[trigger] before[t] as int,
    ) by {
        assert(closer(seen, before[s] as int, before[t] as int));
    }
    assert forall|t: int, i: usize|
        0 <= t < before.len() && i < next.len() && !(#[trigger] before.contains(i)) implies closer(
        next,
        #[trigger] before[t] as int,
        i as int,
    ) by {
        if i < j {
            assert(closer(seen, before[t] as int, i as int));
        }
    }
}

/// Fewer than `k` points are kept so far, all that were seen: the point at
/// position `j` joins them at place `p`.
proof fn lemma_insert(keys: Seq<u32>, j: int, k: nat, before: Seq<usize>, p: int)
    requires
        0 <= j < keys.len(),
        j <= usize::MAX,
        are_nearest(keys.take(j), at_most(k, j as nat), before),
        before.len() < k,
        forall|i: usize| i < j ==> #[trigger] before.contains(i),
        0 <= p <= before.len(),
        forall|t: int| 0 <= t < p ==> keys[#[trigger] before[t] as int] <= keys[j],
        forall|t: int| p <= t < before.len() ==> keys[#[trigger] before[t] as int] > keys[j],
    ensures
        are_nearest(keys.take(j + 1), at_most(k, (j + 1) as nat), before.insert(p, j as usize)),
        forall|i: usize| i < j + 1 ==> #[trigger] before.insert(p, j as usize).contains(i),
{
    let seen = keys.take(j);
    let next = keys.take(j + 1);
    let after = before.insert(p, j as usize);
    assert forall|s: int, t: int| 0 <= s < t < after.len() implies closer(
        next,
        #[trigger] after[s] as int,
        #[trigger] after[t] as int,
    ) by {
        lemma_inserted_order(keys, j, before, p, s, t);
    }
    assert forall|i: usize| i < j + 1 implies #[trigger] after.contains(i) by {
        lemma_insert_keeps(before, p, j as usize, i);
    }
    assert forall|t: int, i: usize|
        0 <= t < after.len() && i < next.len() && !(#[trigger] after.contains(i)) implies closer(
        next,
        #[trigger] after[t] as int,
        i as int,
    ) by {
        assert(after.contains(i));
    }
}

/// `k` points are kept already: the point at position `j` takes place `p`
/// among them and the farthest of them leaves.
proof fn lemma_insert_then_drop(keys: Seq<u32>, j: int, k: nat, before: Seq<usize>, p: int)
    requires
        0 <= j < keys.len(),
        j <= usize::MAX,
        are_nearest(keys.take(j), at_most(k, j as nat), before),
        before.len() == k,
        0 <= p < before.len(),
        forall|t: int| 0 <= t < p ==> keys[#[trigger] before[t] as int] <= keys[j],
        forall|t: int| p <= t < before.len() ==> keys[#[trigger] before[t] as int] > keys[j],
    ensures
        are_nearest(
            keys.take(j + 1),
            at_most(k, (j + 1) as nat),
            before.insert(p, j as usize).drop_last(),
        ),
{
    let seen = keys.take(j);
    let next = keys.take(j + 1);
    let grown = before.insert(p, j as usize);
    let after = grown.drop_last();
    let gone = before.last();
    assert(grown.last() == gone);
    assert forall|s: int, t: int| 0 <= s < t < after.len() implies closer(
        next,
        #[trigger] after[s] as int,
        #[trigger] after[t] as int,
    ) by {
        lemma_inserted_order(keys, j, before, p, s, t);
    }
    assert forall|t: int, i: usize|
        0 <= t < after.len() && i < next.len() && !(#[trigger] after.contains(i)) implies closer(
        next,
        #[trigger] after[t] as int,
        i as int,
    ) by {
        // Every point that stays is before the one that left.
        assert(closer(next, after[t] as int, gone as int)) by {
            lemma_inserted_order(keys, j, before, p, t, before.len() as int);
        }
        assert(after[p] == j as usize);
        if i == j {
            assert(after.contains(j as usize));
        } else if i == gone {
        } else {
            assert(!before.contains(i)) by {
                if before.contains(i) {
                    let w = choose|w: int| 0 <= w < before.len() && before[w] == i;
                    if w < p {
                        assert(after[w] == i);
                    } else {
                        assert(w < before.len() - 1);
                        assert(after[w + 1] == i);
                    }
                }
            }
            assert(closer(seen, before[before.len() - 1] as int, i as int));
        }
    }
}

/// Order among the points kept, once the point at position `j` has been put
/// at place `p`.
proof fn lemma_inserted_order(keys: Seq<u32>, j: int, before: Seq<usize>, p: int, s: int, t: int)
    requires
        0 <= j < keys.len(),
        j <= usize::MAX,
        forall|t: int| 0 <= t < before.len() ==> (#[trigger] before[t]) < j,
        forall|s: int, t: int|
            0 <= s < t < before.len() ==> closer(
                keys.take(j),
                #[trigger] before[s] as int,
                #[trigger] before[t] as int,
            ),
        0 <= p <= before.len(),
        forall|t: int| 0 <= t < p ==> keys[#[trigger] before[t] as int] <= keys[j],
        forall|t: int| p <= t < before.len() ==> keys[#[trigger] before[t] as int] > keys[j],
        0 <= s < t <= before.len(),
    ensures
        closer(
            keys.take(j + 1),
            before.insert(p, j as usize)[s] as int,
            before.insert(p, j as usize)[t] as int,
        ),
{
    let seen = keys.take(j);
    let after = before.insert(p, j as usize);
    if s == p {
        assert(after[t] == before[t - 1]);
    } else if t == p {
        assert(after[s] == before[s]);
    } else {
        let s0 = if s < p { s } else { s - 1 };
        let t0 = if t < p { t } else { t - 1 };
        assert(after[s] == before[s0]);
        assert(after[t] == before[t0]);
        assert(closer(seen, before[s0] as int, before[t0] as int));
    }
}

/// What a sequence held, it holds after an insertion, and the new element too.
proof fn lemma_insert_keeps(before: Seq<usize>, p: int, value: usize, wanted: usize)
    requires
        0 <= p <= before.len(),
        wanted == value || before.contains(wanted),
    ensures
        before.insert(p, value).contains(wanted),
{
    let after = before.insert(p, value);
    if wanted == value {
        assert(after[p] == value);
    } else {
        let w = choose|w: int| 0 <= w < before.len() && before[w] == wanted;
        if w < p {
            assert(after[w] == wanted);
        } else {
            assert(after[w + 1] == wanted);
        }
    }
}

} // verus!
