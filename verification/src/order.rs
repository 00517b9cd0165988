//! Ordering of texts, and stable sorting by a composite key.

use vstd::prelude::*;

verus! {

/// Whether `a` stands before `b` in the lexicographic order of code points.
///
/// UTF-8 keeps the order of code points, so this is also the order of the encoded bytes.
pub open spec fn text_less(a: Seq<char>, b: Seq<char>) -> bool
    decreases a.len(),
{
    if b.len() == 0 {
        false
    } else if a.len() == 0 {
        true
    } else if a[0] == b[0] {
        text_less(a.drop_first(), b.drop_first())
    } else {
        a[0] < b[0]
    }
}

/// Whether `a` stands before `b` in the lexicographic order of code points.
pub fn precedes(a: &[char], b: &[char]) -> (r: bool)
    ensures
        r == text_less(a@, b@),
{
    let mut i: usize = 0;
    assert(a@.skip(0) =~= a@);
    assert(b@.skip(0) =~= b@);
    while i < a.len() && i < b.len()
        invariant
            i <= a.len(),
            i <= b.len(),
            text_less(a@, b@) == text_less(a@.skip(i as int), b@.skip(i as int)),
        decreases a.len() - i,
    {
        if a[i] != b[i] {
            return a[i] < b[i];
        }
        assert(a@.skip(i as int).drop_first() =~= a@.skip(i + 1));
        assert(b@.skip(i as int).drop_first() =~= b@.skip(i + 1));
        i = i + 1;
    }
    i < b.len()
}

/// No text stands before itself.
pub proof fn lemma_text_less_irreflexive(a: Seq<char>)
    ensures
        !text_less(a, a),
    decreases a.len(),
{
    if a.len() > 0 {
        lemma_text_less_irreflexive(a.drop_first());
    }
}

/// The order of texts is transitive.
pub proof fn lemma_text_less_transitive(a: Seq<char>, b: Seq<char>, c: Seq<char>)
    requires
        text_less(a, b),
        text_less(b, c),
    ensures
        text_less(a, c),
    decreases a.len(),
{
    if a.len() > 0 && a[0] == b[0] && b[0] == c[0] {
        lemma_text_less_transitive(a.drop_first(), b.drop_first(), c.drop_first());
    }
}

/// Of two different texts, one stands before the other.
pub proof fn lemma_text_less_total(a: Seq<char>, b: Seq<char>)
    requires
        a != b,
    ensures
        text_less(a, b) || text_less(b, a),
    decreases a.len(),
{
    if a.len() > 0 && b.len() > 0 && a[0] == b[0] {
        assert(a.drop_first() != b.drop_first()) by {
            if a.drop_first() == b.drop_first() {
                assert(a =~= seq![a[0]] + a.drop_first());
                assert(b =~= seq![b[0]] + b.drop_first());
            }
        }
        lemma_text_less_total(a.drop_first(), b.drop_first());
    } else if a.len() == 0 && b.len() == 0 {
        assert(a =~= b);
    }
}

/// What items are sorted by: a score, a preference and two texts.
pub struct Key {
    /// The score. Higher scores come first.
    pub score: int,
    /// Whether the item is preferred. Preferred items come first among those of one score.
    pub preferred: bool,
    /// The first text, which decides next.
    pub first: Seq<char>,
    /// The second text, which decides last.
    pub second: Seq<char>,
}

/// Whether key `a` comes strictly before key `b`.
pub open spec fn key_before(a: Key, b: Key) -> bool {
    ||| a.score > b.score
    ||| {
        &&& a.score == b.score
        &&& {
            ||| a.preferred && !b.preferred
            ||| {
                &&& a.preferred == b.preferred
                &&& {
                    ||| text_less(a.first, b.first)
                    ||| a.first == b.first && text_less(a.second, b.second)
                }
            }
        }
    }
}

/// No key comes before itself.
pub proof fn lemma_key_before_irreflexive(a: Key)
    ensures
        !key_before(a, a),
{
    lemma_text_less_irreflexive(a.first);
    lemma_text_less_irreflexive(a.second);
}

/// The order of keys is transitive.
pub proof fn lemma_key_before_transitive(a: Key, b: Key, c: Key)
    requires
        key_before(a, b),
        key_before(b, c),
    ensures
        key_before(a, c),
{
    if text_less(a.first, b.first) && text_less(b.first, c.first) {
        lemma_text_less_transitive(a.first, b.first, c.first);
    }
    if text_less(a.second, b.second) && text_less(b.second, c.second) {
        lemma_text_less_transitive(a.second, b.second, c.second);
    }
}

proof fn lemma_key_before_total(a: Key, b: Key)
    requires
        a != b,
    ensures
        key_before(a, b) || key_before(b, a),
{
    if a.first != b.first {
        lemma_text_less_total(a.first, b.first);
    } else if a.second != b.second {
        lemma_text_less_total(a.second, b.second);
    }
}

/// Whether the item at index `i` comes before or is the one at index `j`, where items of equal
/// keys keep the order in which they stood.
pub open spec fn item_leq(keys: Seq<Key>, i: usize, j: usize) -> bool {
    ||| key_before(keys[i as int], keys[j as int])
    ||| keys[i as int] == keys[j as int] && i <= j
}

/// Whether `order` lists each index of `keys` once, sorted by key, with equal keys in the order
/// in which they stood.
pub open spec fn is_stable_order(keys: Seq<Key>, order: Seq<usize>) -> bool {
    &&& order.len() == keys.len()
    &&& order.no_duplicates()
    &&& forall|p: int| 0 <= p < order.len() ==> #[trigger] order[p] < keys.len()
    &&& forall|i: usize| i < keys.len() ==> #[trigger] order.contains(i)
    &&& forall|p: int, q: int|
        0 <= p < q < order.len() ==> #[trigger] item_leq(keys, order[p], order[q])
}

/// The indices of `keys`, sorted by key, with equal keys in the order in which they stood.
pub open spec fn stable_order(keys: Seq<Key>) -> Seq<usize> {
    choose|order: Seq<usize>| is_stable_order(keys, order)
}

proof fn lemma_item_leq_total_ordering(keys: Seq<Key>)
    ensures
        vstd::relations::total_ordering(|i: usize, j: usize| item_leq(keys, i, j)),
{
    let leq = |i: usize, j: usize| item_leq(keys, i, j);
    assert forall|x: usize, y: usize| #[trigger] leq(x, y) && #[trigger] leq(y, x) implies x
        == y by {
        let a = keys[x as int];
        let b = keys[y as int];
        lemma_key_before_irreflexive(a);
        if key_before(a, b) && key_before(b, a) {
            lemma_key_before_transitive(a, b, a);
        }
    }
    assert forall|x: usize, y: usize, z: usize|
        #[trigger] leq(x, y) && #[trigger] leq(y, z) implies leq(x, z) by {
        let a = keys[x as int];
        let b = keys[y as int];
        let c = keys[z as int];
        if key_before(a, b) && key_before(b, c) {
            lemma_key_before_transitive(a, b, c);
        }
    }
    assert forall|x: usize, y: usize| #[trigger] leq(x, y) || #[trigger] leq(y, x) by {
        if keys[x as int] != keys[y as int] {
            lemma_key_before_total(keys[x as int], keys[y as int]);
        }
    }
}

/// A list of keys has one stable order only.
pub proof fn law_stable_order_is_unique(keys: Seq<Key>, a: Seq<usize>, b: Seq<usize>)
    requires
        is_stable_order(keys, a),
        is_stable_order(keys, b),
    ensures
        a == b,
{
    broadcast use vstd::seq_lib::group_to_multiset_ensures;

    let leq = |i: usize, j: usize| item_leq(keys, i, j);
    lemma_item_leq_total_ordering(keys);
    a.lemma_multiset_has_no_duplicates();
    b.lemma_multiset_has_no_duplicates();
    assert(a.to_multiset() =~= b.to_multiset());
    vstd::seq_lib::lemma_sorted_unique(a, b, leq);
}

/// A list of keys whose indices are machine integers has a stable order.
pub proof fn law_stable_order_exists(keys: Seq<Key>)
    requires
        keys.len() <= usize::MAX,
    ensures
        is_stable_order(keys, stable_order(keys)),
{
    broadcast use vstd::seq_lib::group_to_multiset_ensures;

    let leq = |i: usize, j: usize| item_leq(keys, i, j);
    lemma_item_leq_total_ordering(keys);
    let all = Seq::new(keys.len(), |i: int| i as usize);
    let sorted = all.sort_by(leq);
    all.lemma_sort_by_ensures(leq);
    all.lemma_multiset_has_no_duplicates();
    sorted.lemma_multiset_has_no_duplicates_conv();
    assert(sorted.len() == all.to_multiset().len());
    assert forall|p: int| 0 <= p < sorted.len() implies #[trigger] sorted[p] < keys.len() by {
        assert(sorted.contains(sorted[p]));
    }
    assert forall|i: usize| i < keys.len() implies #[trigger] sorted.contains(i) by {
        assert(all[i as int] == i);
        assert(sorted.to_multiset().count(i) > 0);
    }
    assert forall|p: int, q: int| 0 <= p < q < sorted.len() implies #[trigger] item_leq(
        keys,
        sorted[p],
        sorted[q],
    ) by {
        assert(leq(sorted[p], sorted[q]));
    }
    assert(is_stable_order(keys, sorted));
}

/// A key that can be sorted by.
pub struct SortKey {
    /// The score. Higher scores come first.
    pub score: i64,
    /// Whether the item is preferred.
    pub preferred: bool,
    /// The first text.
    pub first: Vec<char>,
    /// The second text.
    pub second: Vec<char>,
}

impl View for SortKey {
    type V = Key;

    open spec fn view(&self) -> Key {
        Key {
            score: self.score as int,
            preferred: self.preferred,
            first: self.first@,
            second: self.second@,
        }
    }
}

/// The keys of a list.
pub open spec fn key_views(keys: Seq<SortKey>) -> Seq<Key> {
    Seq::new(keys.len(), |i: int| keys[i]@)
}

fn key_precedes(a: &SortKey, b: &SortKey) -> (r: bool)
    ensures
        r == key_before(a@, b@),
{
    if a.score != b.score {
        a.score > b.score
    } else if a.preferred != b.preferred {
        a.preferred
    } else if precedes(a.first.as_slice(), b.first.as_slice()) {
        true
    } else if crate::text::same_chars(a.first.as_slice(), b.first.as_slice()) {
        precedes(a.second.as_slice(), b.second.as_slice())
    } else {
        false
    }
}

/// Sorts the indices of `keys` by key. Equal keys keep the order in which they stand.
pub fn sort_indices(keys: &Vec<SortKey>) -> (r: Vec<usize>)
    ensures
        is_stable_order(key_views(keys@), r@),
        r@ == stable_order(key_views(keys@)),
{
    let ghost ks = key_views(keys@);
    let n = keys.len();
    let mut order: Vec<usize> = Vec::new();
    let mut i: usize = 0;
    assert(ks.take(0) =~= Seq::<Key>::empty());
    while i < n
        invariant
            i <= n,
            n == keys@.len(),
            ks == key_views(keys@),
            order@.len() == i,
            order@.no_duplicates(),
            forall|p: int| 0 <= p < i ==> #[trigger] order@[p] < i,
            forall|j: usize| j < i ==> #[trigger] order@.contains(j),
            forall|p: int, q: int|
                0 <= p < q < i ==> #[trigger] item_leq(ks, order@[p], order@[q]),
        decreases n - i,
    {
        let mut lo: usize = 0;
        let mut hi: usize = i;
        while lo < hi
            invariant
                i < n,
                n == keys@.len(),
                ks == key_views(keys@),
                0 <= lo <= hi <= i,
                order@.len() == i,
                forall|p: int| 0 <= p < i ==> #[trigger] order@[p] < i,
                forall|p: int, q: int|
                    0 <= p < q < i ==> #[trigger] item_leq(ks, order@[p], order@[q]),
                forall|p: int|
                    0 <= p < lo ==> !key_before(ks[i as int], ks[#[trigger] order@[p] as int]),
                forall|p: int|
                    hi <= p < i ==> key_before(ks[i as int], ks[#[trigger] order@[p] as int]),
            decreases hi - lo,
        {
            let mid = lo + (hi - lo) / 2;
            let m = order[mid];
            if key_precedes(&keys[i], &keys[m]) {
                assert forall|p: int| mid <= p < i implies key_before(
                    ks[i as int],
                    ks[#[trigger] order@[p] as int],
                ) by {
                    if p > mid {
                        assert(item_leq(ks, order@[mid as int], order@[p]));
                        if key_before(ks[m as int], ks[order@[p] as int]) {
                            lemma_key_before_transitive(
                                ks[i as int],
                                ks[m as int],
                                ks[order@[p] as int],
                            );
                        }
                    }
                }
                hi = mid;
            } else {
                assert forall|p: int| 0 <= p <= mid implies !key_before(
                    ks[i as int],
                    ks[#[trigger] order@[p] as int],
                ) by {
                    if p < mid && key_before(ks[i as int], ks[order@[p] as int]) {
                        assert(item_leq(ks, order@[p], order@[mid as int]));
                        if key_before(ks[order@[p] as int], ks[m as int]) {
                            lemma_key_before_transitive(
                                ks[i as int],
                                ks[order@[p] as int],
                                ks[m as int],
                            );
                        }
                    }
                }
                lo = mid + 1;
            }
        }
        let ghost before = order@;
        order.insert(lo, i);
        proof {
            let after = order@;
            assert(after =~= before.insert(lo as int, i));
            assert forall|j: usize| j < i + 1 implies #[trigger] after.contains(j) by {
                if j == i {
                    assert(after[lo as int] == i);
                } else {
                    assert(before.contains(j));
                    let p = choose|p: int| 0 <= p < before.len() && before[p] == j;
                    if p < lo {
                        assert(after[p] == j);
                    } else {
                        assert(after[p + 1] == j);
                    }
                }
            }
            assert forall|p: int, q: int| 0 <= p < q < i + 1 implies #[trigger] item_leq(
                ks,
                after[p],
                after[q],
            ) by {
                if p == lo {
                    assert(after[q] == before[q - 1]);
                } else if q == lo {
                    assert(after[p] == before[p]);
                    let a = ks[before[p] as int];
                    let b = ks[i as int];
                    if a != b {
                        lemma_key_before_total(a, b);
                    }
                } else {
                    let pp = if p < lo { p } else { p - 1 };
                    let qq = if q < lo { q } else { q - 1 };
                    assert(after[p] == before[pp]);
                    assert(after[q] == before[qq]);
                    assert(item_leq(ks, before[pp], before[qq]));
                }
            }
        }
        i = i + 1;
    }
    proof {
        assert(is_stable_order(ks, order@));
        law_stable_order_is_unique(ks, order@, stable_order(ks));
    }
    order
}

/// The first place at which two texts differ decides their order. A text stands before every
/// longer text that begins with it.
pub proof fn law_first_difference_decides(a: Seq<char>, b: Seq<char>)
    ensures
        text_less(a, b) <==> exists|k: int|
            0 <= k <= a.len() && k < b.len() && #[trigger] a.take(k) == b.take(k) && (k < a.len()
                ==> a[k] < b[k]),
{
    if text_less(a, b) {
        let k = lemma_difference_of(a, b);
    }
    if exists|k: int|
        0 <= k <= a.len() && k < b.len() && #[trigger] a.take(k) == b.take(k) && (k < a.len()
            ==> a[k] < b[k]) {
        let k = choose|k: int|
            0 <= k <= a.len() && k < b.len() && #[trigger] a.take(k) == b.take(k) && (k < a.len()
                ==> a[k] < b[k]);
        lemma_difference_suffices(a, b, k);
    }
}

proof fn lemma_difference_of(a: Seq<char>, b: Seq<char>) -> (k: int)
    requires
        text_less(a, b),
    ensures
        0 <= k <= a.len(),
        k < b.len(),
        a.take(k) == b.take(k),
        k < a.len() ==> a[k] < b[k],
    decreases a.len(),
{
    if a.len() > 0 && a[0] == b[0] {
        let rest = lemma_difference_of(a.drop_first(), b.drop_first());
        let k = rest + 1;
        assert(a.take(k) =~= seq![a[0]] + a.drop_first().take(rest));
        assert(b.take(k) =~= seq![b[0]] + b.drop_first().take(rest));
        k
    } else {
        assert(a.take(0) =~= b.take(0));
        0
    }
}

proof fn lemma_difference_suffices(a: Seq<char>, b: Seq<char>, k: int)
    requires
        0 <= k <= a.len(),
        k < b.len(),
        a.take(k) == b.take(k),
        k < a.len() ==> a[k] < b[k],
    ensures
        text_less(a, b),
    decreases k,
{
    if k > 0 {
        assert(a[0] == a.take(k)[0]);
        assert(b[0] == b.take(k)[0]);
        assert(a.drop_first().take(k - 1) =~= a.take(k).drop_first());
        assert(b.drop_first().take(k - 1) =~= b.take(k).drop_first());
        lemma_difference_suffices(a.drop_first(), b.drop_first(), k - 1);
    }
}

/// The score decides first, then the preference, then the first text, and the second text last.
pub proof fn law_keys_decide_in_turn(a: Key, b: Key)
    ensures
        a.score > b.score ==> key_before(a, b),
        a.score < b.score ==> !key_before(a, b),
        a.score == b.score && a.preferred && !b.preferred ==> key_before(a, b) && !key_before(b, a),
        a.score == b.score && a.preferred == b.preferred && a.first != b.first ==> key_before(a, b)
            == text_less(a.first, b.first),
        a.score == b.score && a.preferred == b.preferred && a.first == b.first ==> key_before(a, b)
            == text_less(a.second, b.second),
{
    lemma_text_less_irreflexive(a.first);
}

/// Sorting lists each item once. Of two items, the one whose key comes first is listed first, and
/// items with the same key stay in the order in which they stood.
pub proof fn law_sorting_is_stable(keys: Seq<Key>, p: int, q: int)
    requires
        keys.len() <= usize::MAX,
        0 <= p < q < keys.len(),
    ensures
        stable_order(keys).len() == keys.len(),
        stable_order(keys)[p] < keys.len(),
        stable_order(keys)[q] < keys.len(),
        stable_order(keys)[p] != stable_order(keys)[q],
        !key_before(keys[stable_order(keys)[q] as int], keys[stable_order(keys)[p] as int]),
        keys[stable_order(keys)[p] as int] == keys[stable_order(keys)[q] as int]
            ==> stable_order(keys)[p] < stable_order(keys)[q],
{
    law_stable_order_exists(keys);
    let listed = stable_order(keys);
    let a = keys[listed[p] as int];
    let b = keys[listed[q] as int];
    assert(item_leq(keys, listed[p], listed[q]));
    lemma_key_before_irreflexive(a);
    if key_before(a, b) && key_before(b, a) {
        lemma_key_before_transitive(a, b, a);
    }
}

/// What keys say is what they hold, field by field.
pub proof fn law_keys_say_what_they_hold(keys: Seq<SortKey>, i: int)
    requires
        0 <= i < keys.len(),
    ensures
        key_views(keys).len() == keys.len(),
        key_views(keys)[i].score == keys[i].score,
        key_views(keys)[i].preferred == keys[i].preferred,
        key_views(keys)[i].first == keys[i].first@,
        key_views(keys)[i].second == keys[i].second@,
{
}

/// Sorting leaves no item out, and lists nothing but items.
pub proof fn law_sorting_keeps_every_item(keys: Seq<Key>, i: usize, p: int)
    requires
        keys.len() <= usize::MAX,
    ensures
        stable_order(keys).len() == keys.len(),
        i < keys.len() ==> stable_order(keys).contains(i),
        0 <= p < keys.len() ==> stable_order(keys)[p] < keys.len(),
{
    law_stable_order_exists(keys);
}

} // verus!
