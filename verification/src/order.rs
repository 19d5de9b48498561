//! Lexicographic order and stable sorting by lexicographic keys.
//!
//! A sort key is a sequence of integers. A text is ordered by the sequence
//! of its code points, which is the order of its UTF-8 bytes.

use vstd::prelude::*;

verus! {

/// The lexicographic order on sequences of integers.
pub open spec fn lex_less(a: Seq<u64>, b: Seq<u64>) -> bool
    decreases a.len(),
{
    if b.len() == 0 {
        false
    } else if a.len() == 0 {
        true
    } else if a[0] != b[0] {
        a[0] < b[0]
    } else {
        lex_less(a.drop_first(), b.drop_first())
    }
}

/// The sort key of a text: its code points.
pub open spec fn text_key(s: Seq<char>) -> Seq<u64> {
    Seq::new(s.len(), |i: int| s[i] as u64)
}

/// Whether the text `a` comes before the text `b`.
pub open spec fn text_before(a: Seq<char>, b: Seq<char>) -> bool {
    lex_less(text_key(a), text_key(b))
}

/// Nothing comes before itself.
pub proof fn lemma_lex_irreflexive(a: Seq<u64>)
    ensures
        !lex_less(a, a),
    decreases a.len(),
{
    if a.len() > 0 {
        lemma_lex_irreflexive(a.drop_first());
    }
}

/// The order is transitive.
pub proof fn lemma_lex_transitive(a: Seq<u64>, b: Seq<u64>, c: Seq<u64>)
    requires
        lex_less(a, b),
        lex_less(b, c),
    ensures
        lex_less(a, c),
    decreases a.len(),
{
    if a.len() > 0 && b.len() > 0 && c.len() > 0 && a[0] == b[0] && b[0] == c[0] {
        lemma_lex_transitive(a.drop_first(), b.drop_first(), c.drop_first());
    }
}

/// Of two different sequences one comes before the other.
pub proof fn lemma_lex_total(a: Seq<u64>, b: Seq<u64>)
    ensures
        a == b || lex_less(a, b) || lex_less(b, a),
    decreases a.len(),
{
    if a.len() == 0 && b.len() == 0 {
        assert(a =~= b);
    } else if a.len() > 0 && b.len() > 0 && a[0] == b[0] {
        lemma_lex_total(a.drop_first(), b.drop_first());
        if a.drop_first() == b.drop_first() {
            assert(a =~= seq![a[0]] + a.drop_first());
            assert(b =~= seq![b[0]] + b.drop_first());
        }
    }
}

proof fn lemma_char_code(x: char, y: char)
    requires
        x as u64 == y as u64,
    ensures
        x == y,
{
}

/// Texts with the same key are the same text.
pub proof fn lemma_text_key_injective(a: Seq<char>, b: Seq<char>)
    requires
        text_key(a) == text_key(b),
    ensures
        a == b,
{
    assert(a.len() == text_key(a).len());
    assert(b.len() == text_key(b).len());
    assert forall|i: int| 0 <= i < a.len() implies a[i] == b[i] by {
        assert(text_key(a)[i] == a[i] as u64);
        assert(text_key(b)[i] == b[i] as u64);
        lemma_char_code(a[i], b[i]);
    }
    assert(a =~= b);
}

/// The key of a text.
pub fn key_of_text(s: &[char]) -> (r: Vec<u64>)
    ensures
        r@ == text_key(s@),
{
    let mut out: Vec<u64> = Vec::new();
    let mut i: usize = 0;
    while i < s.len()
        invariant
            i <= s@.len(),
            out@.len() == i,
            forall|k: int| 0 <= k < i ==> out@[k] == s@[k] as u64,
        decreases s@.len() - i,
    {
        out.push(s[i] as u64);
        i = i + 1;
    }
    out
}

/// Whether `a` comes before `b`.
pub fn key_less(a: &Vec<u64>, b: &Vec<u64>) -> (r: bool)
    ensures
        r == lex_less(a@, b@),
{
    let mut i: usize = 0;
    proof {
        assert(a@.skip(0) =~= a@);
        assert(b@.skip(0) =~= b@);
    }
    while i < a.len() && i < b.len()
        invariant
            i <= a@.len(),
            i <= b@.len(),
            lex_less(a@, b@) == lex_less(a@.skip(i as int), b@.skip(i as int)),
        decreases a@.len() - i,
    {
        if a[i] != b[i] {
            return a[i] < b[i];
        }
        proof {
            assert(a@.skip(i as int).drop_first() =~= a@.skip(i + 1));
            assert(b@.skip(i as int).drop_first() =~= b@.skip(i + 1));
        }
        i = i + 1;
    }
    i < b.len()
}

/// The views of a list of keys.
pub open spec fn key_views(keys: Seq<Vec<u64>>) -> Seq<Seq<u64>> {
    Seq::new(keys.len(), |i: int| keys[i]@)
}

/// Whether the item at `a` comes before the item at `b` in a stable sort by
/// `keys`: by key, and items with the same key in their given order.
pub open spec fn precedes(keys: Seq<Seq<u64>>, a: int, b: int) -> bool {
    lex_less(keys[a], keys[b]) || (keys[a] == keys[b] && a < b)
}

/// `p` lists the positions from `lo` up to `hi`, each once, in the order of
/// a stable sort by `keys`.
pub open spec fn sorts_range(keys: Seq<Seq<u64>>, p: Seq<usize>, lo: int, hi: int) -> bool {
    &&& p.len() == hi - lo
    &&& forall|i: int| 0 <= i < p.len() ==> lo <= #[trigger] p[i] < hi
    &&& forall|k: usize| lo <= k < hi ==> #[trigger] p.contains(k)
    &&& forall|i: int, j: int|
        0 <= i < j < p.len() ==> precedes(keys, #[trigger] p[i] as int, #[trigger] p[j] as int)
}

/// `p` lists the positions of `keys`, each once, in the order of a stable
/// sort.
pub open spec fn sorts(keys: Seq<Seq<u64>>, p: Seq<usize>) -> bool {
    sorts_range(keys, p, 0, keys.len() as int)
}

proof fn lemma_precedes_transitive(keys: Seq<Seq<u64>>, a: int, b: int, c: int)
    requires
        precedes(keys, a, b),
        precedes(keys, b, c),
    ensures
        precedes(keys, a, c),
{
    if lex_less(keys[a], keys[b]) && lex_less(keys[b], keys[c]) {
        lemma_lex_transitive(keys[a], keys[b], keys[c]);
    }
}

/// Merges two adjacent sorted stretches.
fn merge(keys: &Vec<Vec<u64>>, left: Vec<usize>, right: Vec<usize>, Ghost(lo): Ghost<int>, Ghost(
    mid,
): Ghost<int>, Ghost(hi): Ghost<int>) -> (p: Vec<usize>)
    requires
        0 <= lo <= mid <= hi <= keys@.len(),
        sorts_range(key_views(keys@), left@, lo, mid),
        sorts_range(key_views(keys@), right@, mid, hi),
    ensures
        sorts_range(key_views(keys@), p@, lo, hi),
{
    let ghost kv = key_views(keys@);
    let mut p: Vec<usize> = Vec::new();
    let mut i: usize = 0;
    let mut j: usize = 0;
    while i < left.len() || j < right.len()
        invariant
            0 <= lo <= mid <= hi <= keys@.len(),
            kv == key_views(keys@),
            sorts_range(kv, left@, lo, mid),
            sorts_range(kv, right@, mid, hi),
            i <= left@.len(),
            j <= right@.len(),
            p@.len() == i + j,
            forall|k: int| 0 <= k < p@.len() ==> lo <= #[trigger] p@[k] < hi,
            forall|k: int| 0 <= k < i ==> p@.contains(#[trigger] left@[k]),
            forall|k: int| 0 <= k < j ==> p@.contains(#[trigger] right@[k]),
            forall|a: int, b: int|
                0 <= a < b < p@.len() ==> precedes(
                    kv,
                    #[trigger] p@[a] as int,
                    #[trigger] p@[b] as int,
                ),
            forall|a: int, b: int|
                0 <= a < p@.len() && i <= b < left@.len() ==> precedes(
                    kv,
                    #[trigger] p@[a] as int,
                    #[trigger] left@[b] as int,
                ),
            forall|a: int, b: int|
                0 <= a < p@.len() && j <= b < right@.len() ==> precedes(
                    kv,
                    #[trigger] p@[a] as int,
                    #[trigger] right@[b] as int,
                ),
        decreases left@.len() - i + right@.len() - j,
    {
        let take_left = if j >= right.len() {
            true
        } else if i >= left.len() {
            false
        } else {
            !key_less(&keys[right[j]], &keys[left[i]])
        };
        let ghost old_p = p@;
        if take_left {
            let x: usize = left[i];
            proof {
                if j < right@.len() {
                    let l = left@[i as int] as int;
                    let r = right@[j as int] as int;
                    lemma_lex_total(kv[l], kv[r]);
                    assert(precedes(kv, l, r));
                    assert forall|b: int| j <= b < right@.len() implies precedes(
                        kv,
                        l,
                        #[trigger] right@[b] as int,
                    ) by {
                        if b > j {
                            lemma_precedes_transitive(kv, l, r, right@[b] as int);
                        }
                    }
                }
            }
            p.push(x);
            proof {
                assert(p@[old_p.len() as int] == left@[i as int]);
                assert forall|k: int| 0 <= k < i + 1 implies p@.contains(#[trigger] left@[k]) by {
                    if k < i {
                        let w = choose|w: int| 0 <= w < old_p.len() && old_p[w] == left@[k];
                        assert(p@[w] == left@[k]);
                    }
                }
                assert forall|k: int| 0 <= k < j implies p@.contains(#[trigger] right@[k]) by {
                    let w = choose|w: int| 0 <= w < old_p.len() && old_p[w] == right@[k];
                    assert(p@[w] == right@[k]);
                }
            }
            i = i + 1;
        } else {
            let x: usize = right[j];
            proof {
                if i < left@.len() {
                    let l = left@[i as int] as int;
                    let r = right@[j as int] as int;
                    assert(precedes(kv, r, l));
                    assert forall|b: int| i <= b < left@.len() implies precedes(
                        kv,
                        r,
                        #[trigger] left@[b] as int,
                    ) by {
                        if b > i {
                            lemma_precedes_transitive(kv, r, l, left@[b] as int);
                        }
                    }
                }
            }
            p.push(x);
            proof {
                assert(p@[old_p.len() as int] == right@[j as int]);
                assert forall|k: int| 0 <= k < j + 1 implies p@.contains(#[trigger] right@[k]) by {
                    if k < j {
                        let w = choose|w: int| 0 <= w < old_p.len() && old_p[w] == right@[k];
                        assert(p@[w] == right@[k]);
                    }
                }
                assert forall|k: int| 0 <= k < i implies p@.contains(#[trigger] left@[k]) by {
                    let w = choose|w: int| 0 <= w < old_p.len() && old_p[w] == left@[k];
                    assert(p@[w] == left@[k]);
                }
            }
            j = j + 1;
        }
    }
    proof {
        assert forall|k: usize| lo <= k < hi implies #[trigger] p@.contains(k) by {
            if k < mid {
                assert(left@.contains(k));
                let w = choose|w: int| 0 <= w < left@.len() && left@[w] == k;
                assert(p@.contains(left@[w]));
            } else {
                assert(right@.contains(k));
                let w = choose|w: int| 0 <= w < right@.len() && right@[w] == k;
                assert(p@.contains(right@[w]));
            }
        }
    }
    p
}

fn order_range(keys: &Vec<Vec<u64>>, lo: usize, hi: usize) -> (p: Vec<usize>)
    requires
        lo <= hi <= keys@.len(),
    ensures
        sorts_range(key_views(keys@), p@, lo as int, hi as int),
    decreases hi - lo,
{
    if hi - lo == 0 {
        Vec::new()
    } else if hi - lo == 1 {
        let mut p: Vec<usize> = Vec::new();
        p.push(lo);
        proof {
            assert(p@[0] == lo);
            assert forall|k: usize| lo <= k < hi implies #[trigger] p@.contains(k) by {
                assert(k == lo);
            }
        }
        p
    } else {
        let mid: usize = lo + (hi - lo) / 2;
        let left = order_range(keys, lo, mid);
        let right = order_range(keys, mid, hi);
        merge(
            keys,
            left,
            right,
            Ghost(lo as int),
            Ghost(mid as int),
            Ghost(hi as int),
        )
    }
}

/// The positions of `keys` in the order of a stable sort.
pub fn stable_order(keys: &Vec<Vec<u64>>) -> (p: Vec<usize>)
    ensures
        sorts(key_views(keys@), p@),
{
    order_range(keys, 0, keys.len())
}

/// Law: a stable sort is determined by its keys.
pub proof fn law_stable_order_unique(keys: Seq<Seq<u64>>, p: Seq<usize>, q: Seq<usize>)
    requires
        sorts(keys, p),
        sorts(keys, q),
    ensures
        p == q,
{
    lemma_order_agrees(keys, p, q, p.len());
    assert(p =~= q);
}

proof fn lemma_order_agrees(keys: Seq<Seq<u64>>, p: Seq<usize>, q: Seq<usize>, n: nat)
    requires
        sorts(keys, p),
        sorts(keys, q),
        n <= p.len(),
    ensures
        forall|i: int| 0 <= i < n ==> p[i] == q[i],
    decreases n,
{
    if n > 0 {
        lemma_order_agrees(keys, p, q, (n - 1) as nat);
        let last = n - 1;
        assert(q.contains(p[last]));
        let a = choose|a: int| 0 <= a < q.len() && q[a] == p[last];
        assert(p.contains(q[last]));
        let b = choose|b: int| 0 <= b < p.len() && p[b] == q[last];
        lemma_lex_irreflexive(keys[p[last] as int]);
        lemma_lex_irreflexive(keys[q[last] as int]);
        if a < last {
            assert(p[a] == q[a]);
            assert(precedes(keys, p[a] as int, p[last] as int));
            assert(false);
        }
        if b < last {
            assert(p[b] == q[b]);
            assert(precedes(keys, q[b] as int, q[last] as int));
            assert(false);
        }
        if a > last {
            assert(precedes(keys, q[last] as int, q[a] as int));
            if b > last {
                assert(precedes(keys, p[last] as int, p[b] as int));
                lemma_precedes_transitive(keys, p[last] as int, q[last] as int, p[last] as int);
                assert(false);
            }
            assert(b == last);
            assert(false);
        }
    }
}

/// Where the position `n` goes into `p`, from `i` on: after all that come
/// before it.
spec fn place(keys: Seq<Seq<u64>>, p: Seq<usize>, n: usize, i: int) -> int
    decreases p.len() - i,
{
    if 0 <= i < p.len() && precedes(keys, p[i] as int, n as int) {
        place(keys, p, n, i + 1)
    } else {
        i
    }
}

proof fn lemma_place(keys: Seq<Seq<u64>>, p: Seq<usize>, n: usize, i: int)
    requires
        0 <= i <= p.len(),
        forall|j: int| 0 <= j < i ==> precedes(keys, #[trigger] p[j] as int, n as int),
    ensures
        ({
            let m = place(keys, p, n, i);
            &&& i <= m <= p.len()
            &&& forall|j: int| 0 <= j < m ==> precedes(keys, #[trigger] p[j] as int, n as int)
            &&& m < p.len() ==> !precedes(keys, p[m] as int, n as int)
        }),
    decreases p.len() - i,
{
    if i < p.len() && precedes(keys, p[i] as int, n as int) {
        lemma_place(keys, p, n, i + 1);
    }
}

proof fn lemma_insert(keys: Seq<Seq<u64>>, p: Seq<usize>, n: usize)
    requires
        n < keys.len(),
        sorts_range(keys, p, 0, n as int),
    ensures
        exists|q: Seq<usize>| #[trigger] sorts_range(keys, q, 0, n + 1),
{
    lemma_place(keys, p, n, 0);
    let m = place(keys, p, n, 0);
    let q = p.insert(m, n);
    assert forall|j: int| m <= j < p.len() implies precedes(
        keys,
        n as int,
        #[trigger] p[j] as int,
    ) by {
        let first = p[m] as int;
        lemma_lex_total(keys[first], keys[n as int]);
        assert(precedes(keys, n as int, first));
        if j > m {
            lemma_precedes_transitive(keys, n as int, first, p[j] as int);
        }
    }
    assert forall|k: usize| 0 <= k < n + 1 implies #[trigger] q.contains(k) by {
        if k == n {
            assert(q[m] == n);
        } else {
            assert(p.contains(k));
            let i = choose|i: int| 0 <= i < p.len() && p[i] == k;
            if i < m {
                assert(q[i] == k);
            } else {
                assert(q[i + 1] == k);
            }
        }
    }
    assert forall|i: int, j: int| 0 <= i < j < q.len() implies precedes(
        keys,
        #[trigger] q[i] as int,
        #[trigger] q[j] as int,
    ) by {
        if i < m && j < m {
            assert(q[i] == p[i] && q[j] == p[j]);
        } else if i < m && j == m {
            assert(q[i] == p[i]);
        } else if i < m {
            assert(q[i] == p[i] && q[j] == p[j - 1]);
        } else if i == m {
            assert(q[j] == p[j - 1]);
        } else {
            assert(q[i] == p[i - 1] && q[j] == p[j - 1]);
        }
    }
    assert(sorts_range(keys, q, 0, n + 1));
}

/// Law: items can always be sorted stably.
pub proof fn law_stable_order_exists(keys: Seq<Seq<u64>>)
    requires
        keys.len() <= usize::MAX,
    ensures
        exists|p: Seq<usize>| sorts(keys, p),
{
    lemma_sorted_upto(keys, keys.len());
    let p = choose|p: Seq<usize>| #[trigger] sorts_range(keys, p, 0, keys.len() as int);
    assert(sorts(keys, p));
}

proof fn lemma_sorted_upto(keys: Seq<Seq<u64>>, n: nat)
    requires
        n <= keys.len() <= usize::MAX,
    ensures
        exists|p: Seq<usize>| #[trigger] sorts_range(keys, p, 0, n as int),
    decreases n,
{
    if n == 0 {
        assert(sorts_range(keys, Seq::<usize>::empty(), 0, 0));
    } else {
        lemma_sorted_upto(keys, (n - 1) as nat);
        let p = choose|p: Seq<usize>| #[trigger] sorts_range(keys, p, 0, n - 1);
        lemma_insert(keys, p, (n - 1) as usize);
    }
}

/// Law: of two texts the one with the smaller character at the first place
/// where they differ comes first, and a text comes before every longer one
/// that it leads.
pub proof fn law_texts_are_ordered_by_their_first_difference(
    lead: Seq<char>,
    a: char,
    b: char,
    x: Seq<char>,
    y: Seq<char>,
)
    ensures
        text_before(lead.push(a) + x, lead.push(b) + y) <==> a < b || (a == b && text_before(x, y)),
        text_before(lead, lead.push(a) + x),
        !text_before(lead.push(a) + x, lead),
    decreases lead.len(),
{
    let p = lead.push(a) + x;
    let q = lead.push(b) + y;
    if lead.len() == 0 {
        assert(text_key(p).drop_first() =~= text_key(x));
        assert(text_key(q).drop_first() =~= text_key(y));
        assert(text_key(p)[0] == a as u64);
        assert(text_key(q)[0] == b as u64);
    } else {
        let rest = lead.drop_first();
        law_texts_are_ordered_by_their_first_difference(rest, a, b, x, y);
        assert(text_key(p).drop_first() =~= text_key(rest.push(a) + x));
        assert(text_key(q).drop_first() =~= text_key(rest.push(b) + y));
        assert(text_key(lead).drop_first() =~= text_key(rest));
        assert(text_key(p)[0] == lead[0] as u64);
        assert(text_key(q)[0] == lead[0] as u64);
        assert(text_key(lead)[0] == lead[0] as u64);
    }
}

} // verus!
