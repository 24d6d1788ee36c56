//! Ordering names: the order of `String`'s `Ord` (character by character,
//! by code point, a prefix first) and a stable sort by it.

use vstd::prelude::*;

verus! {

/// `a` comes strictly before `b`: at the first position where they differ
/// `a` has the smaller character, or `a` is a proper prefix of `b`.
pub open spec fn seq_less(a: Seq<char>, b: Seq<char>) -> bool
    decreases a.len(),
{
    if a.len() == 0 {
        b.len() > 0
    } else if b.len() == 0 {
        false
    } else if a[0] != b[0] {
        a[0] < b[0]
    } else {
        seq_less(a.drop_first(), b.drop_first())
    }
}

pub proof fn lemma_less_irreflexive(a: Seq<char>)
    ensures
        !seq_less(a, a),
    decreases a.len(),
{
    if a.len() > 0 {
        lemma_less_irreflexive(a.drop_first());
    }
}

pub proof fn lemma_less_transitive(a: Seq<char>, b: Seq<char>, c: Seq<char>)
    requires
        seq_less(a, b),
        seq_less(b, c),
    ensures
        seq_less(a, c),
    decreases a.len(),
{
    if a.len() > 0 && b.len() > 0 && c.len() > 0 && a[0] == b[0] && b[0] == c[0] {
        lemma_less_transitive(a.drop_first(), b.drop_first(), c.drop_first());
    }
}

pub proof fn lemma_less_total(a: Seq<char>, b: Seq<char>)
    ensures
        a == b || seq_less(a, b) || seq_less(b, a),
    decreases a.len(),
{
    if a.len() > 0 && b.len() > 0 {
        if a[0] == b[0] {
            lemma_less_total(a.drop_first(), b.drop_first());
            if a.drop_first() == b.drop_first() {
                assert(a =~= seq![a[0]] + a.drop_first());
                assert(b =~= seq![b[0]] + b.drop_first());
            }
        }
    } else if a.len() == 0 && b.len() == 0 {
        assert(a =~= b);
    }
}

pub proof fn lemma_less_asymmetric(a: Seq<char>, b: Seq<char>)
    requires
        seq_less(a, b),
    ensures
        !seq_less(b, a),
{
    if seq_less(b, a) {
        lemma_less_transitive(a, b, a);
        lemma_less_irreflexive(a);
    }
}

/// Whether `a` sorts strictly before `b`, as `String::cmp` orders them.
pub fn str_less(a: &str, b: &str) -> (r: bool)
    ensures
        r == seq_less(a@, b@),
{
    let n = a.unicode_len();
    let m = b.unicode_len();
    let mut i: usize = 0;
    proof {
        assert(a@.skip(0) =~= a@);
        assert(b@.skip(0) =~= b@);
    }
    while i < n && i < m
        invariant
            n == a@.len(),
            m == b@.len(),
            i <= n,
            i <= m,
            seq_less(a@, b@) == seq_less(a@.skip(i as int), b@.skip(i as int)),
        decreases n - i,
    {
        let x = a.get_char(i);
        let y = b.get_char(i);
        proof {
            assert(a@.skip(i as int)[0] == x);
            assert(b@.skip(i as int)[0] == y);
        }
        if x != y {
            return x < y;
        }
        proof {
            assert(a@.skip(i as int).drop_first() =~= a@.skip(i + 1));
            assert(b@.skip(i as int).drop_first() =~= b@.skip(i + 1));
        }
        i = i + 1;
    }
    i < m
}

/// The sort key of an item: a rank (`false` sorts first), then a name.
pub open spec fn key_less(a: (bool, Seq<char>), b: (bool, Seq<char>)) -> bool {
    (!a.0 && b.0) || (a.0 == b.0 && seq_less(a.1, b.1))
}

pub proof fn lemma_key_order(a: (bool, Seq<char>), b: (bool, Seq<char>), c: (bool, Seq<char>))
    ensures
        !key_less(a, a),
        key_less(a, b) && key_less(b, c) ==> key_less(a, c),
        a == b || key_less(a, b) || key_less(b, a),
        key_less(a, b) ==> !key_less(b, a),
{
    lemma_less_irreflexive(a.1);
    if key_less(a, b) && key_less(b, c) && a.0 == b.0 && b.0 == c.0 {
        lemma_less_transitive(a.1, b.1, c.1);
    }
    lemma_less_total(a.1, b.1);
    if key_less(a, b) && a.0 == b.0 {
        lemma_less_asymmetric(a.1, b.1);
    }
}

/// The keys of items `ranks[i]`, `names[i]`.
pub open spec fn key_at(ranks: Seq<bool>, names: Seq<String>, i: int) -> (bool, Seq<char>) {
    (ranks[i], names[i]@)
}

/// `order` lists each index below `n` exactly once.
pub open spec fn is_permutation(order: Seq<usize>, n: int) -> bool {
    &&& order.len() == n
    &&& forall|i: int| 0 <= i < order.len() ==> #[trigger] order[i] < n
    &&& forall|i: int, j: int| 0 <= i < j < order.len() ==> order[i] != order[j]
}

/// `order` lists the items by key, items of equal keys in their given
/// order.
pub open spec fn is_stably_sorted(order: Seq<usize>, ranks: Seq<bool>, names: Seq<String>) -> bool {
    forall|i: int, j: int|
        #![trigger order[i], order[j]]
        0 <= i < j < order.len() ==> {
            let ki = key_at(ranks, names, order[i] as int);
            let kj = key_at(ranks, names, order[j] as int);
            !key_less(kj, ki) && (ki == kj ==> order[i] < order[j])
        }
}

/// The order in which to list items by (rank, name): a stable sort.
pub fn sorted_order(ranks: &Vec<bool>, names: &Vec<String>) -> (order: Vec<usize>)
    requires
        ranks@.len() == names@.len(),
    ensures
        is_permutation(order@, names@.len() as int),
        is_stably_sorted(order@, ranks@, names@),
{
    let n = names.len();
    let mut order: Vec<usize> = Vec::new();
    let mut k: usize = 0;
    while k < n
        invariant
            k <= n == names@.len() == ranks@.len(),
            order@.len() == k,
            forall|i: int| 0 <= i < order@.len() ==> #[trigger] order@[i] < k,
            forall|i: int, j: int| 0 <= i < j < order@.len() ==> order@[i] != order@[j],
            is_stably_sorted(order@, ranks@, names@),
        decreases n - k,
    {
        let ghost kk = key_at(ranks@, names@, k as int);
        let mut p: usize = 0;
        while p < order.len() && !(key_less_exec(ranks, names, k, order[p]))
            invariant
                k < n == names@.len() == ranks@.len(),
                kk == key_at(ranks@, names@, k as int),
                p <= order@.len(),
                forall|i: int| 0 <= i < order@.len() ==> #[trigger] order@[i] < k,
                forall|i: int|
                    0 <= i < p ==> !key_less(kk, #[trigger] key_at(ranks@, names@, order@[i] as int)),
            decreases order@.len() - p,
        {
            p = p + 1;
        }
        let ghost before = order@;
        order.insert(p, k);
        proof {
            assert forall|i: int, j: int|
                #![trigger order@[i], order@[j]]
                0 <= i < j < order@.len() implies {
                let ki = key_at(ranks@, names@, order@[i] as int);
                let kj = key_at(ranks@, names@, order@[j] as int);
                !key_less(kj, ki) && (ki == kj ==> order@[i] < order@[j])
            } by {
                let ki = key_at(ranks@, names@, order@[i] as int);
                let kj = key_at(ranks@, names@, order@[j] as int);
                if i < p && j < p {
                    assert(order@[i] == before[i] && order@[j] == before[j]);
                } else if i < p && j == p {
                    assert(order@[i] == before[i]);
                    lemma_key_order(ki, kj, kj);
                    assert(!key_less(kk, ki));
                } else if i < p && j > p {
                    assert(order@[i] == before[i] && order@[j] == before[j - 1]);
                } else if i == p {
                    assert(order@[j] == before[j - 1]);
                    let kp = key_at(ranks@, names@, before[p as int] as int);
                    assert(key_less(kk, kp));
                    if j - 1 > p {
                        lemma_key_order(kk, kp, kj);
                        lemma_key_order(kp, kj, kj);
                        if kp != kj {
                            lemma_key_order(kj, kp, kp);
                        }
                    }
                    lemma_key_order(kk, kj, kj);
                    lemma_key_order(kj, kk, kk);
                } else {
                    assert(order@[i] == before[i - 1] && order@[j] == before[j - 1]);
                }
            }
        }
        k = k + 1;
    }
    order
}

fn key_less_exec(ranks: &Vec<bool>, names: &Vec<String>, a: usize, b: usize) -> (r: bool)
    requires
        a < names@.len(),
        b < names@.len(),
        ranks@.len() == names@.len(),
    ensures
        r == key_less(key_at(ranks@, names@, a as int), key_at(ranks@, names@, b as int)),
{
    let ra = ranks[a];
    let rb = ranks[b];
    (!ra && rb) || (ra == rb && str_less(names[a].as_str(), names[b].as_str()))
}

} // verus!
