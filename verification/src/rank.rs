//! The ranking order of analysed files: by score, highest first, files
//! with equal scores in the order they were found.

use vstd::prelude::*;

verus! {

/// File `a` is ranked before file `b`: its key is higher, or the keys are
/// equal and `a` was found first.
pub open spec fn ranks_before(keys: Seq<i32>, a: int, b: int) -> bool {
    keys[a] > keys[b] || (keys[a] == keys[b] && a < b)
}

/// `order` lists every file index once, in ranking order.
pub open spec fn is_ranking(keys: Seq<i32>, order: Seq<usize>) -> bool {
    &&& order.len() == keys.len()
    &&& forall|x: int| 0 <= x < order.len() ==> #[trigger] order[x] < keys.len()
    &&& forall|x: int, y: int|
        0 <= x < y < order.len() ==> ranks_before(keys, #[trigger] order[x] as int, #[trigger] order[y] as int)
    &&& forall|v: int| 0 <= v < keys.len() ==> #[trigger] order.contains(v as usize)
}

/// Order files by their score keys, highest first; files with equal keys
/// keep the order in which they were found (a stable sort).  The keys are
/// the scores mapped to integers that order as the scores do.
pub fn rank_descending(keys: &[i32]) -> (order: Vec<usize>)
    ensures
        is_ranking(keys@, order@),
{
    let n = keys.len();
    let mut order: Vec<usize> = Vec::new();
    let mut i: usize = 0;
    while i < n
        invariant
            n == keys@.len(),
            i <= n,
            order@.len() == i,
            forall|x: int| 0 <= x < order@.len() ==> #[trigger] order@[x] < i,
            forall|x: int, y: int|
                0 <= x < y < order@.len() ==> ranks_before(keys@, #[trigger] order@[x] as int, #[trigger] order@[y] as int),
            forall|v: int| 0 <= v < i ==> #[trigger] order@.contains(v as usize),
        decreases n - i,
    {
        let mut p: usize = 0;
        while p < order.len() && keys[order[p]] >= keys[i]
            invariant
                n == keys@.len(),
                i < n,
                order@.len() == i,
                p <= order@.len(),
                forall|x: int| 0 <= x < order@.len() ==> #[trigger] order@[x] < i,
                forall|x: int| 0 <= x < p ==> ranks_before(keys@, #[trigger] order@[x] as int, i as int),
            decreases order@.len() - p,
        {
            p = p + 1;
        }
        let ghost old_order = order@;
        proof {
            old_order.insert_ensures(p as int, i);
            if p < old_order.len() {
                assert(ranks_before(keys@, i as int, old_order[p as int] as int));
            }
        }
        order.insert(p, i);
        proof {
            let s = order@;
            assert forall|x: int| 0 <= x < s.len() implies #[trigger] s[x] < i + 1 by {
                if x < p {
                    assert(s[x] == old_order[x]);
                } else if x > p {
                    assert(s[x] == old_order[x - 1]);
                }
            }
            assert forall|x: int, y: int|
                0 <= x < y < s.len() implies ranks_before(keys@, #[trigger] s[x] as int, #[trigger] s[y] as int) by {
                if y < p {
                    assert(s[x] == old_order[x] && s[y] == old_order[y]);
                } else if y == p {
                    assert(s[x] == old_order[x]);
                } else if x < p {
                    assert(s[x] == old_order[x] && s[y] == old_order[y - 1]);
                } else if x == p {
                    assert(s[y] == old_order[y - 1]);
                    if y - 1 > p {
                        assert(ranks_before(keys@, old_order[p as int] as int, old_order[y - 1] as int));
                    }
                } else {
                    assert(s[x] == old_order[x - 1] && s[y] == old_order[y - 1]);
                }
            }
            assert forall|v: int| 0 <= v < i + 1 implies #[trigger] s.contains(v as usize) by {
                if v == i {
                    assert(s[p as int] == i);
                } else {
                    assert(old_order.contains(v as usize));
                    let x = choose|x: int| 0 <= x < old_order.len() && old_order[x] == v as usize;
                    if x < p {
                        assert(s[x] == v as usize);
                    } else {
                        assert(s[x + 1] == v as usize);
                    }
                }
            }
        }
        i = i + 1;
    }
    order
}

proof fn lemma_ranking_prefix(keys: Seq<i32>, a: Seq<usize>, b: Seq<usize>, i: int)
    requires
        is_ranking(keys, a),
        is_ranking(keys, b),
        0 <= i <= a.len(),
    ensures
        forall|j: int| 0 <= j < i ==> a[j] == b[j],
    decreases i,
{
    if i > 0 {
        let x = i - 1;
        lemma_ranking_prefix(keys, a, b, x);
        let u = a[x];
        let v = b[x];
        if u != v {
            assert(u < keys.len() && v < keys.len());
            assert(b.contains((u as int) as usize));
            assert(a.contains((v as int) as usize));
            let y = choose|y: int| 0 <= y < a.len() && a[y] == v;
            let z = choose|z: int| 0 <= z < b.len() && b[z] == u;
            if y < x {
                assert(a[y] == b[y]);
                assert(ranks_before(keys, b[y] as int, b[x] as int));
            }
            if z < x {
                assert(a[z] == b[z]);
                assert(ranks_before(keys, a[z] as int, a[x] as int));
            }
            assert(ranks_before(keys, a[x] as int, a[y] as int));
            assert(ranks_before(keys, b[x] as int, b[z] as int));
        }
    }
}

/// The ranking order is determined by the keys alone: any two orders that
/// meet the ranking rule are the same.
pub proof fn lemma_ranking_unique(keys: Seq<i32>, a: Seq<usize>, b: Seq<usize>)
    requires
        is_ranking(keys, a),
        is_ranking(keys, b),
    ensures
        a == b,
{
    lemma_ranking_prefix(keys, a, b, a.len() as int);
    assert(a =~= b);
}

/// The sign bit of an `f32` bit pattern is set.
pub open spec fn sign_set(bits: u32) -> bool {
    bits >= 0x8000_0000
}

/// The bit pattern of an `f32` without its sign bit.
pub open spec fn magnitude(bits: u32) -> int {
    if sign_set(bits) {
        bits - 0x8000_0000
    } else {
        bits as int
    }
}

/// IEEE 754 totalOrder on `f32` bit patterns, strict: `a` comes before `b`.
/// Every pattern with the sign bit set (negative NaNs, -inf, negative
/// numbers, -0) comes before every pattern without it; among the
/// negatives a larger magnitude comes first, among the others a smaller
/// one.
pub open spec fn total_order_less(a: u32, b: u32) -> bool {
    if sign_set(a) != sign_set(b) {
        sign_set(a)
    } else if sign_set(a) {
        magnitude(a) > magnitude(b)
    } else {
        magnitude(a) < magnitude(b)
    }
}

/// The ranking key of a score given by its `f32` bit pattern.
pub open spec fn score_key_of(bits: u32) -> int {
    if sign_set(bits) {
        -1 - magnitude(bits)
    } else {
        magnitude(bits)
    }
}

/// The ranking key of a score given by its `f32` bit pattern (`to_bits`).
/// Keys compare as integers exactly as the scores compare in IEEE 754
/// totalOrder (see `lemma_keys_follow_total_order`), the order in which
/// scores are sorted.
pub fn score_key(bits: u32) -> (k: i32)
    ensures
        k as int == score_key_of(bits),
{
    if bits < 0x8000_0000 {
        bits as i32
    } else {
        -1 - ((bits - 0x8000_0000) as i32)
    }
}

/// The ranking keys of a list of scores given by their bit patterns.
pub fn score_keys(bits: &[u32]) -> (keys: Vec<i32>)
    ensures
        keys@.len() == bits@.len(),
        forall|i: int| 0 <= i < bits@.len() ==> #[trigger] keys@[i] as int == score_key_of(bits@[i]),
{
    let mut keys: Vec<i32> = Vec::new();
    let mut i: usize = 0;
    while i < bits.len()
        invariant
            i <= bits@.len(),
            keys@.len() == i,
            forall|j: int| 0 <= j < i ==> #[trigger] keys@[j] as int == score_key_of(bits@[j]),
        decreases bits@.len() - i,
    {
        keys.push(score_key(bits[i]));
        i = i + 1;
    }
    keys
}

/// Keys order as the scores do in IEEE 754 totalOrder, and distinct bit
/// patterns have distinct keys.
pub proof fn lemma_keys_follow_total_order(a: u32, b: u32)
    ensures
        score_key_of(a) < score_key_of(b) <==> total_order_less(a, b),
        score_key_of(a) == score_key_of(b) <==> a == b,
{
}

/// Ranking by the keys of the scores orders the files by score in IEEE 754
/// totalOrder, highest first, equal scores in the order the files were
/// found.
pub proof fn lemma_ranking_by_score(bits: Seq<u32>, keys: Seq<i32>, order: Seq<usize>)
    requires
        keys.len() == bits.len(),
        forall|i: int| 0 <= i < bits.len() ==> #[trigger] keys[i] as int == score_key_of(bits[i]),
        is_ranking(keys, order),
    ensures
        forall|x: int, y: int|
            0 <= x < y < order.len() ==> {
                let a = bits[#[trigger] order[x] as int];
                let b = bits[#[trigger] order[y] as int];
                total_order_less(b, a) || (a == b && order[x] < order[y])
            },
{
    assert forall|x: int, y: int| 0 <= x < y < order.len() implies {
        let a = bits[#[trigger] order[x] as int];
        let b = bits[#[trigger] order[y] as int];
        total_order_less(b, a) || (a == b && order[x] < order[y])
    } by {
        let i = order[x] as int;
        let j = order[y] as int;
        assert(ranks_before(keys, i, j));
        assert(keys[i] as int == score_key_of(bits[i]));
        assert(keys[j] as int == score_key_of(bits[j]));
        lemma_keys_follow_total_order(bits[i], bits[j]);
        lemma_keys_follow_total_order(bits[j], bits[i]);
    }
}

} // verus!
