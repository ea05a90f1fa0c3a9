//! Ordering of texts and a stable sort of positions by `(rank, text)` keys.

use vstd::prelude::*;

verus! {

/// `a` comes before `b` in code-point order: at the first difference `a` holds the
/// smaller character, or `a` is a proper prefix of `b`. On UTF-8 text this is the byte
/// order that `String`'s `<` uses.
pub open spec fn text_lt(a: Seq<char>, b: Seq<char>) -> bool
    decreases a.len(),
{
    if a.len() == 0 {
        b.len() > 0
    } else if b.len() == 0 {
        false
    } else if a[0] != b[0] {
        (a[0] as int) < (b[0] as int)
    } else {
        text_lt(a.drop_first(), b.drop_first())
    }
}

/// No text comes before itself.
pub proof fn lemma_text_lt_irreflexive(a: Seq<char>)
    ensures
        !text_lt(a, a),
    decreases a.len(),
{
    if a.len() > 0 {
        lemma_text_lt_irreflexive(a.drop_first());
    }
}

/// `text_lt` never holds both ways, and holds one way between different texts.
pub proof fn lemma_text_lt_total(a: Seq<char>, b: Seq<char>)
    ensures
        !(text_lt(a, b) && text_lt(b, a)),
        a != b ==> text_lt(a, b) || text_lt(b, a),
    decreases a.len(),
{
    if a.len() > 0 && b.len() > 0 {
        lemma_text_lt_total(a.drop_first(), b.drop_first());
        if a[0] != b[0] {
            assert((a[0] as int) != (b[0] as int));
        }
        if a[0] == b[0] && a.drop_first() == b.drop_first() {
            assert(a =~= seq![a[0]] + a.drop_first());
            assert(b =~= seq![b[0]] + b.drop_first());
        }
    } else if a.len() == 0 && b.len() == 0 {
        assert(a =~= b);
    }
}

/// `text_lt` is transitive.
pub proof fn lemma_text_lt_transitive(a: Seq<char>, b: Seq<char>, c: Seq<char>)
    requires
        text_lt(a, b),
        text_lt(b, c),
    ensures
        text_lt(a, c),
    decreases a.len(),
{
    if a.len() > 0 && b.len() > 0 && c.len() > 0 && a[0] == b[0] && b[0] == c[0] {
        lemma_text_lt_transitive(a.drop_first(), b.drop_first(), c.drop_first());
    }
}

/// `text_lt` is the lexicographic order of code points (which on UTF-8 text is the byte
/// order of `String`'s `cmp`): `a` comes before `b` exactly when, after a common start
/// of some length `i`, either `a` ends there and `b` goes on, or both go on and `a`'s
/// next character is the smaller.
pub proof fn lemma_text_lt_lexicographic(a: Seq<char>, b: Seq<char>)
    ensures
        text_lt(a, b) <==> exists|i: int|
            #![trigger a.subrange(0, i), b.subrange(0, i)]
            0 <= i <= a.len() && i <= b.len() && a.subrange(0, i) == b.subrange(0, i) && ((i == a.len()
                && i < b.len()) || (i < a.len() && i < b.len() && (a[i] as int) < (b[i] as int))),
    decreases a.len(),
{
    if a.len() == 0 {
        if b.len() > 0 {
            assert(a.subrange(0, 0) =~= b.subrange(0, 0));
        }
    } else if b.len() == 0 {
    } else if a[0] != b[0] {
        if (a[0] as int) < (b[0] as int) {
            assert(a.subrange(0, 0) =~= b.subrange(0, 0));
        }
        assert forall|i: int|
            0 <= i <= a.len() && i <= b.len() && #[trigger] a.subrange(0, i) == #[trigger] b.subrange(0, i)
            && ((i == a.len() && i < b.len()) || (i < a.len() && i < b.len() && (a[i] as int) < (b[i] as int)))
            implies i == 0 by {
            if i > 0 {
                assert(a.subrange(0, i)[0] == b.subrange(0, i)[0]);
            }
        }
    } else {
        let a1 = a.drop_first();
        let b1 = b.drop_first();
        lemma_text_lt_lexicographic(a1, b1);
        if text_lt(a1, b1) {
            let i1 = choose|i: int|
                #![trigger a1.subrange(0, i), b1.subrange(0, i)]
                0 <= i <= a1.len() && i <= b1.len() && a1.subrange(0, i) == b1.subrange(0, i) && ((i == a1.len()
                    && i < b1.len()) || (i < a1.len() && i < b1.len() && (a1[i] as int) < (b1[i] as int)));
            assert(a.subrange(0, i1 + 1) =~= seq![a[0]] + a1.subrange(0, i1));
            assert(b.subrange(0, i1 + 1) =~= seq![b[0]] + b1.subrange(0, i1));
            assert(a.subrange(0, i1 + 1) == b.subrange(0, i1 + 1));
        }
        assert forall|i: int|
            0 <= i <= a.len() && i <= b.len() && #[trigger] a.subrange(0, i) == #[trigger] b.subrange(0, i)
            && ((i == a.len() && i < b.len()) || (i < a.len() && i < b.len() && (a[i] as int) < (b[i] as int)))
            implies text_lt(a1, b1) by {
            assert(i > 0);
            assert(a1.subrange(0, i - 1) =~= a.subrange(0, i).drop_first());
            assert(b1.subrange(0, i - 1) =~= b.subrange(0, i).drop_first());
            assert(a1.subrange(0, i - 1) == b1.subrange(0, i - 1));
            if i < a.len() {
                assert(a1[i - 1] == a[i]);
            }
            if i < b.len() {
                assert(b1[i - 1] == b[i]);
            }
        }
    }
}

/// A text comes before every longer text that starts with it, and never after it.
pub proof fn lemma_prefix_comes_first(a: Seq<char>, x: Seq<char>)
    requires
        x.len() > 0,
    ensures
        text_lt(a, a + x),
        !text_lt(a + x, a),
{
    lemma_text_lt_lexicographic(a, a + x);
    assert((a + x).subrange(0, a.len() as int) =~= a);
    assert(a.subrange(0, a.len() as int) =~= a);
    lemma_text_lt_total(a, a + x);
}

/// Whether `a` comes before `b` in code-point order.
pub fn text_less(a: &Vec<char>, b: &Vec<char>) -> (r: bool)
    ensures
        r == text_lt(a@, b@),
{
    let mut i: usize = 0;
    assert(a@.skip(0) =~= a@);
    assert(b@.skip(0) =~= b@);
    while i < a.len() && i < b.len() && a[i] == b[i]
        invariant
            i <= a.len(),
            i <= b.len(),
            text_lt(a@, b@) == text_lt(a@.skip(i as int), b@.skip(i as int)),
        decreases a.len() - i,
    {
        assert(a@.skip(i as int).drop_first() =~= a@.skip(i + 1));
        assert(b@.skip(i as int).drop_first() =~= b@.skip(i + 1));
        i = i + 1;
    }
    if i == a.len() {
        i < b.len()
    } else if i == b.len() {
        false
    } else {
        a[i] < b[i]
    }
}

/// A sort key: a rank first, then a text.
pub open spec fn key_lt(a: (u8, Seq<char>), b: (u8, Seq<char>)) -> bool {
    a.0 < b.0 || (a.0 == b.0 && text_lt(a.1, b.1))
}

/// Position `a` comes before position `b`: by key, and by position between equal keys.
pub open spec fn place_lt(keys: Seq<(u8, Seq<char>)>, a: int, b: int) -> bool {
    key_lt(keys[a], keys[b]) || (keys[a] == keys[b] && a < b)
}

/// Positions as integers.
pub open spec fn as_ints(v: Seq<usize>) -> Seq<int> {
    v.map_values(|i: usize| i as int)
}

/// `k` occurs in `order`.
pub open spec fn appears(order: Seq<int>, k: int) -> bool {
    exists|i: int| 0 <= i < order.len() && order[i] == k
}

/// `order` lists every position `0..n` once, each position before the later ones by
/// `place_lt`: the stable sort of the positions by key.
pub open spec fn is_stable_order(keys: Seq<(u8, Seq<char>)>, order: Seq<int>) -> bool {
    &&& order.len() == keys.len()
    &&& forall|i: int| 0 <= i < order.len() ==> 0 <= #[trigger] order[i] < keys.len()
    &&& forall|k: int| 0 <= k < keys.len() ==> #[trigger] appears(order, k)
    &&& forall|i: int, j: int| 0 <= i < j < order.len() ==> place_lt(keys, order[i], order[j])
}

/// A stable order puts no position after one whose key comes after its own: earlier
/// positions never have a larger key.
pub proof fn lemma_stable_order_sorted(keys: Seq<(u8, Seq<char>)>, order: Seq<int>, i: int, j: int)
    requires
        is_stable_order(keys, order),
        0 <= i < j < order.len(),
    ensures
        !key_lt(keys[order[j]], keys[order[i]]),
{
    assert(place_lt(keys, order[i], order[j]));
    let a = keys[order[i]];
    let b = keys[order[j]];
    lemma_text_lt_total(a.1, b.1);
    lemma_text_lt_irreflexive(a.1);
}

/// Each position of `s` shows up in `s` reordered by a stable order of its keys.
pub proof fn lemma_reorder_keeps_all<T>(s: Seq<T>, keys: Seq<(u8, Seq<char>)>, order: Seq<int>, k: int)
    requires
        is_stable_order(keys, order),
        keys.len() == s.len(),
        0 <= k < s.len(),
    ensures
        exists|j: int| 0 <= j < reorder(s, order).len() && reorder(s, order)[j] == s[k],
{
    assert(appears(order, k));
    let j = choose|j: int| 0 <= j < order.len() && order[j] == k;
    assert(reorder(s, order)[j] == s[k]);
}

proof fn lemma_unique_at(keys: Seq<(u8, Seq<char>)>, a: Seq<int>, b: Seq<int>, i: int)
    requires
        is_stable_order(keys, a),
        is_stable_order(keys, b),
        0 <= i < a.len(),
    ensures
        a[i] == b[i],
    decreases i,
{
    assert forall|j: int| 0 <= j < i implies a[j] == b[j] by {
        lemma_unique_at(keys, a, b, j);
    }
    if a[i] != b[i] {
        assert(appears(b, a[i]));
        let j = choose|j: int| 0 <= j < b.len() && b[j] == a[i];
        assert(appears(a, b[i]));
        let k = choose|k: int| 0 <= k < a.len() && a[k] == b[i];
        if j < i {
            assert(a[j] == b[j]);
            assert(place_lt(keys, a[j], a[i]));
            lemma_place_lt_irreflexive(keys, a[i]);
        } else if k < i {
            assert(a[k] == b[k]);
            assert(place_lt(keys, b[k], b[i]));
            lemma_place_lt_irreflexive(keys, b[i]);
        } else {
            assert(j > i && k > i);
            assert(place_lt(keys, b[i], b[j]));
            assert(place_lt(keys, a[i], a[k]));
            lemma_place_lt_total(keys, a[i], b[i]);
        }
    }
}

/// There is only one stable order of given keys.
pub proof fn lemma_stable_order_unique(keys: Seq<(u8, Seq<char>)>, a: Seq<int>, b: Seq<int>)
    requires
        is_stable_order(keys, a),
        is_stable_order(keys, b),
    ensures
        a == b,
{
    assert forall|i: int| 0 <= i < a.len() implies a[i] == b[i] by {
        lemma_unique_at(keys, a, b, i);
    }
    assert(a =~= b);
}

/// The stable order of `keys`.
pub open spec fn sorted_positions(keys: Seq<(u8, Seq<char>)>) -> Seq<int> {
    choose|order: Seq<int>| is_stable_order(keys, order)
}

/// `s` stably sorted by `keys`, position by position.
pub open spec fn sorted_by_keys<T>(s: Seq<T>, keys: Seq<(u8, Seq<char>)>) -> Seq<T> {
    reorder(s, sorted_positions(keys))
}

/// A stable order of `keys` is `sorted_positions(keys)`.
pub proof fn lemma_sorted_positions(keys: Seq<(u8, Seq<char>)>, order: Seq<int>)
    requires
        is_stable_order(keys, order),
    ensures
        sorted_positions(keys) == order,
        is_stable_order(keys, sorted_positions(keys)),
{
    lemma_stable_order_unique(keys, sorted_positions(keys), order);
}

/// The first position `i` at or after `i` of `order` whose element comes after `x`, or
/// `order.len()`.
spec fn first_after(keys: Seq<(u8, Seq<char>)>, order: Seq<int>, x: int, i: int) -> int
    decreases order.len() - i,
{
    if i < 0 || i >= order.len() {
        order.len() as int
    } else if place_lt(keys, x, order[i]) {
        i
    } else {
        first_after(keys, order, x, i + 1)
    }
}

proof fn lemma_first_after(keys: Seq<(u8, Seq<char>)>, order: Seq<int>, x: int, i: int)
    requires
        0 <= i <= order.len(),
    ensures
        i <= first_after(keys, order, x, i) <= order.len(),
        first_after(keys, order, x, i) < order.len() ==> place_lt(keys, x, order[first_after(keys, order, x, i)]),
        forall|j: int| i <= j < first_after(keys, order, x, i) ==> !place_lt(keys, x, #[trigger] order[j]),
    decreases order.len() - i,
{
    if i < order.len() && !place_lt(keys, x, order[i]) {
        lemma_first_after(keys, order, x, i + 1);
    }
}

/// Every sequence of keys has its stable order.
pub proof fn lemma_stable_order_exists(keys: Seq<(u8, Seq<char>)>)
    ensures
        is_stable_order(keys, sorted_positions(keys)),
    decreases keys.len(),
{
    if keys.len() == 0 {
        let empty = Seq::<int>::empty();
        assert(is_stable_order(keys, empty));
        lemma_sorted_positions(keys, empty);
    } else {
        let n = keys.len() - 1;
        let k0 = keys.drop_last();
        lemma_stable_order_exists(k0);
        let o = sorted_positions(k0);
        assert forall|a: int, b: int| 0 <= a < n && 0 <= b < n implies place_lt(k0, a, b) == place_lt(keys, a, b) by {
            assert(k0[a] == keys[a] && k0[b] == keys[b]);
        }
        lemma_first_after(keys, o, n, 0);
        let pos = first_after(keys, o, n, 0);
        let o2 = o.insert(pos, n);
        assert forall|i: int| 0 <= i < pos implies place_lt(keys, #[trigger] o[i], n) by {
            assert(0 <= o[i] < n);
            lemma_place_lt_total(keys, o[i], n);
        }
        if pos < o.len() {
            assert forall|i: int| pos <= i < o.len() implies place_lt(keys, n, #[trigger] o[i]) by {
                if i > pos {
                    assert(place_lt(k0, o[pos], o[i]));
                    lemma_place_lt_transitive(keys, n, o[pos], o[i]);
                }
            }
        }
        assert forall|i: int, j: int| 0 <= i < j < o2.len() implies place_lt(keys, o2[i], o2[j]) by {
            if j < pos {
                assert(place_lt(k0, o[i], o[j]));
            } else if j == pos {
            } else if i < pos {
                assert(place_lt(keys, o[i], n));
                assert(place_lt(keys, n, o[j - 1]));
                lemma_place_lt_transitive(keys, o[i], n, o[j - 1]);
            } else if i == pos {
            } else {
                assert(place_lt(k0, o[i - 1], o[j - 1]));
            }
        }
        assert forall|x: int| 0 <= x < keys.len() implies #[trigger] appears(o2, x) by {
            if x == n {
                assert(o2[pos] == x);
            } else {
                assert(appears(o, x));
                let w = choose|w: int| 0 <= w < o.len() && o[w] == x;
                if w < pos {
                    assert(o2[w] == x);
                } else {
                    assert(o2[w + 1] == x);
                }
            }
        }
        assert forall|i: int| 0 <= i < o2.len() implies 0 <= #[trigger] o2[i] < keys.len() by {
            if i < pos {
                assert(o2[i] == o[i]);
            } else if i > pos {
                assert(o2[i] == o[i - 1]);
            }
        }
        assert(is_stable_order(keys, o2));
        lemma_sorted_positions(keys, o2);
    }
}

proof fn lemma_place_lt_irreflexive(keys: Seq<(u8, Seq<char>)>, a: int)
    ensures
        !place_lt(keys, a, a),
{
    lemma_text_lt_irreflexive(keys[a].1);
}

/// A stable sort moves every position exactly once: the sorted sequence at `i` and at
/// `j` are the original at two different positions.
pub proof fn lemma_sorted_positions_distinct(keys: Seq<(u8, Seq<char>)>, i: int, j: int)
    requires
        0 <= i < j < keys.len(),
    ensures
        0 <= sorted_positions(keys)[i] < keys.len(),
        0 <= sorted_positions(keys)[j] < keys.len(),
        sorted_positions(keys)[i] != sorted_positions(keys)[j],
        sorted_positions(keys).len() == keys.len(),
{
    lemma_stable_order_exists(keys);
    let o = sorted_positions(keys);
    assert(place_lt(keys, o[i], o[j]));
    lemma_place_lt_irreflexive(keys, o[i]);
}

proof fn lemma_place_lt_total(keys: Seq<(u8, Seq<char>)>, a: int, b: int)
    requires
        0 <= a < keys.len(),
        0 <= b < keys.len(),
        a != b,
    ensures
        place_lt(keys, a, b) || place_lt(keys, b, a),
        !(place_lt(keys, a, b) && place_lt(keys, b, a)),
{
    lemma_text_lt_total(keys[a].1, keys[b].1);
    if keys[a].0 == keys[b].0 && keys[a].1 == keys[b].1 {
        assert(keys[a] == keys[b]);
    }
}

proof fn lemma_place_lt_transitive(keys: Seq<(u8, Seq<char>)>, a: int, b: int, c: int)
    requires
        0 <= a < keys.len(),
        0 <= b < keys.len(),
        0 <= c < keys.len(),
        place_lt(keys, a, b),
        place_lt(keys, b, c),
    ensures
        place_lt(keys, a, c),
{
    lemma_text_lt_total(keys[a].1, keys[b].1);
    lemma_text_lt_total(keys[b].1, keys[c].1);
    lemma_text_lt_total(keys[a].1, keys[c].1);
    if text_lt(keys[a].1, keys[b].1) && text_lt(keys[b].1, keys[c].1) {
        lemma_text_lt_transitive(keys[a].1, keys[b].1, keys[c].1);
    }
}

/// The positions of `keys` in stable key order.
pub fn stable_order(keys: &Vec<(u8, Vec<char>)>) -> (order: Vec<usize>)
    ensures
        is_stable_order(keys@.map_values(|k: (u8, Vec<char>)| (k.0, k.1@)), as_ints(order@)),
        as_ints(order@) == sorted_positions(keys@.map_values(|k: (u8, Vec<char>)| (k.0, k.1@))),
{
    let ghost kv = keys@.map_values(|k: (u8, Vec<char>)| (k.0, k.1@));
    let mut order: Vec<usize> = Vec::new();
    let mut k: usize = 0;
    while k < keys.len()
        invariant
            k <= keys.len(),
            kv == keys@.map_values(|k: (u8, Vec<char>)| (k.0, k.1@)),
            order@.len() == k,
            forall|i: int| 0 <= i < order@.len() ==> (#[trigger] order@[i]) < k,
            forall|x: int| 0 <= x < k ==> #[trigger] appears(as_ints(order@), x),
            forall|i: int, j: int|
                0 <= i < j < order@.len() ==> place_lt(kv, order@[i] as int, order@[j] as int),
        decreases keys.len() - k,
    {
        let mut pos: usize = 0;
        while pos < order.len() && !key_less(&keys[k], &keys[order[pos]])
            invariant
                k < keys.len(),
                pos <= order@.len(),
                kv == keys@.map_values(|k: (u8, Vec<char>)| (k.0, k.1@)),
                forall|i: int| 0 <= i < order@.len() ==> (#[trigger] order@[i]) < k,
                forall|i: int| 0 <= i < pos ==> !key_lt(kv[k as int], kv[order@[i] as int]),
            decreases order.len() - pos,
        {
            assert(kv[k as int] == (keys@[k as int].0, keys@[k as int].1@));
            assert(kv[order@[pos as int] as int] == (keys@[order@[pos as int] as int].0, keys@[order@[pos as int] as int].1@));
            pos = pos + 1;
        }
        proof {
            if pos < order@.len() {
                assert(kv[k as int] == (keys@[k as int].0, keys@[k as int].1@));
                assert(kv[order@[pos as int] as int] == (keys@[order@[pos as int] as int].0, keys@[order@[pos as int] as int].1@));
            }
            assert forall|i: int| 0 <= i < pos implies place_lt(kv, order@[i] as int, k as int) by {
                lemma_place_lt_total(kv, order@[i] as int, k as int);
            }
            if pos < order@.len() {
                assert(place_lt(kv, k as int, order@[pos as int] as int));
                assert forall|i: int| pos <= i < order@.len() implies place_lt(kv, k as int, order@[i] as int) by {
                    if i > pos {
                        lemma_place_lt_transitive(kv, k as int, order@[pos as int] as int, order@[i] as int);
                    }
                }
            }
        }
        let ghost prev = order@;
        order.insert(pos, k);
        assert(order@ == prev.insert(pos as int, k));
        assert forall|x: int| 0 <= x < k + 1 implies #[trigger] appears(as_ints(order@), x) by {
            let ov = as_ints(order@);
            let pv = as_ints(prev);
            if x == k {
                assert(ov[pos as int] == x);
            } else {
                assert(appears(pv, x));
                let w = choose|i: int| 0 <= i < pv.len() && pv[i] == x;
                if w < pos {
                    assert(ov[w] == x);
                } else {
                    assert(ov[w + 1] == x);
                }
            }
        }
        assert forall|i: int, j: int| 0 <= i < j < order@.len() implies place_lt(kv, order@[i] as int, order@[j] as int) by {
            if j < pos {
            } else if j == pos {
            } else if i < pos {
                lemma_place_lt_transitive(kv, order@[i] as int, k as int, order@[j] as int);
            } else if i == pos {
            } else {
            }
        }
        k = k + 1;
    }
    proof {
        lemma_sorted_positions(kv, as_ints(order@));
    }
    order
}

/// Whether `b`'s key comes before `a`'s key... stated as: `a` key before `b` key.
fn key_less(a: &(u8, Vec<char>), b: &(u8, Vec<char>)) -> (r: bool)
    ensures
        r == key_lt((a.0, a.1@), (b.0, b.1@)),
{
    a.0 < b.0 || (a.0 == b.0 && text_less(&a.1, &b.1))
}

/// The elements of `s` at the positions `order`, in that order.
pub open spec fn reorder<T>(s: Seq<T>, order: Seq<int>) -> Seq<T> {
    order.map_values(|i: int| s[i])
}

/// A character with ASCII upper case folded to lower case, as SQLite's `NOCASE` does.
pub open spec fn fold_ascii_char(c: char) -> char {
    if 'A' <= c && c <= 'Z' {
        ((c as u8) + 32) as u8 as char
    } else {
        c
    }
}

/// A text with ASCII upper case folded to lower case.
pub open spec fn fold_ascii(s: Seq<char>) -> Seq<char> {
    s.map_values(|c: char| fold_ascii_char(c))
}

/// `s` with ASCII upper case folded to lower case.
pub fn fold_ascii_chars(s: &Vec<char>) -> (r: Vec<char>)
    ensures
        r@ == fold_ascii(s@),
{
    let mut r: Vec<char> = Vec::new();
    let mut i: usize = 0;
    while i < s.len()
        invariant
            i <= s.len(),
            r@ == fold_ascii(s@.take(i as int)),
        decreases s.len() - i,
    {
        let c = s[i];
        let f = if 'A' <= c && c <= 'Z' {
            ((c as u8) + 32) as char
        } else {
            c
        };
        r.push(f);
        i = i + 1;
        assert(r@ =~= fold_ascii(s@.take(i as int)));
    }
    assert(s@.take(s.len() as int) =~= s@);
    r
}

} // verus!
