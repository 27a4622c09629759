//! The list of commodities that an account owns, kept sorted by
//! `(identifier, info)` as the tuple order of `(H256, Vec<u8>)` sorts them.
use vstd::prelude::*;

use crate::order::{compare_bytes, lemma_lex_transitive, lemma_lex_trichotomy, lex_lt, Comparison};
use crate::types::{commodities_view, commodity_view, Commodity, CommodityId, CommodityView};

verus! {

/// The order of commodities: by identifier, then by info.
pub open spec fn commodity_lt(a: CommodityView, b: CommodityView) -> bool {
    lex_lt(a.0, b.0) || (a.0 == b.0 && lex_lt(a.1, b.1))
}

/// Every element is strictly smaller than the elements after it.
pub open spec fn strictly_sorted(s: Seq<CommodityView>) -> bool {
    forall|i: int, j: int| 0 <= i < j < s.len() ==> commodity_lt(#[trigger] s[i], #[trigger] s[j])
}

/// The number of elements of `s` that are smaller than `c`.
pub open spec fn count_less(s: Seq<CommodityView>, c: CommodityView) -> nat
    decreases s.len(),
{
    if s.len() == 0 {
        0
    } else {
        count_less(s.drop_last(), c) + if commodity_lt(s.last(), c) {
            1nat
        } else {
            0nat
        }
    }
}

/// `s` with `c` added in its place by order, unless `c` is already there.
pub open spec fn sorted_insert(s: Seq<CommodityView>, c: CommodityView) -> Seq<CommodityView> {
    if s.contains(c) {
        s
    } else {
        s.insert(count_less(s, c) as int, c)
    }
}

/// The index of the first element whose identifier is `id`, or `-1` where there is none.
pub open spec fn id_index(s: Seq<CommodityView>, id: Seq<u8>) -> int
    decreases s.len(),
{
    if s.len() == 0 {
        -1
    } else if s[0].0 == id {
        0
    } else {
        let r = id_index(s.drop_first(), id);
        if r < 0 {
            -1
        } else {
            r + 1
        }
    }
}

/// `s` without its first element whose identifier is `id`.
pub open spec fn without_id(s: Seq<CommodityView>, id: Seq<u8>) -> Seq<CommodityView> {
    if id_index(s, id) >= 0 {
        s.remove(id_index(s, id))
    } else {
        s
    }
}

pub proof fn lemma_commodity_trichotomy(a: CommodityView, b: CommodityView)
    ensures
        commodity_lt(a, b) || a == b || commodity_lt(b, a),
        !(commodity_lt(a, b) && a == b),
        !(commodity_lt(a, b) && commodity_lt(b, a)),
{
    lemma_lex_trichotomy(a.0, b.0);
    lemma_lex_trichotomy(a.1, b.1);
}

pub proof fn lemma_commodity_transitive(a: CommodityView, b: CommodityView, c: CommodityView)
    requires
        commodity_lt(a, b),
        commodity_lt(b, c),
    ensures
        commodity_lt(a, c),
{
    lemma_lex_trichotomy(a.0, b.0);
    lemma_lex_trichotomy(b.0, c.0);
    if lex_lt(a.0, b.0) && lex_lt(b.0, c.0) {
        lemma_lex_transitive(a.0, b.0, c.0);
    }
    if a.0 == b.0 && b.0 == c.0 {
        lemma_lex_transitive(a.1, b.1, c.1);
    }
}

/// What `id_index` is.
pub proof fn lemma_id_index(s: Seq<CommodityView>, id: Seq<u8>)
    ensures
        -1 <= id_index(s, id) < s.len(),
        id_index(s, id) >= 0 ==> s[id_index(s, id)].0 == id,
        forall|j: int| 0 <= j < id_index(s, id) ==> s[j].0 != id,
        id_index(s, id) < 0 ==> forall|j: int| 0 <= j < s.len() ==> s[j].0 != id,
    decreases s.len(),
{
    if s.len() > 0 && s[0].0 != id {
        lemma_id_index(s.drop_first(), id);
        assert forall|j: int| 0 < j < s.len() implies s[j] == s.drop_first()[j - 1] by {}
    }
}

/// `count_less` is the split point of a list whose smaller elements come first.
pub proof fn lemma_count_less(s: Seq<CommodityView>, c: CommodityView, p: int)
    requires
        0 <= p <= s.len(),
        forall|j: int| 0 <= j < p ==> commodity_lt(#[trigger] s[j], c),
        forall|j: int| p <= j < s.len() ==> !commodity_lt(#[trigger] s[j], c),
    ensures
        count_less(s, c) == p,
    decreases s.len(),
{
    if s.len() > 0 {
        let t = s.drop_last();
        if p == s.len() {
            assert(commodity_lt(s[s.len() - 1], c));
            lemma_count_less(t, c, p - 1);
        } else {
            assert(!commodity_lt(s[s.len() - 1], c));
            lemma_count_less(t, c, p);
        }
    }
}

/// In a sorted list the elements smaller than `c` are the first `count_less` ones.
pub proof fn lemma_count_less_split(s: Seq<CommodityView>, c: CommodityView)
    requires
        strictly_sorted(s),
    ensures
        count_less(s, c) <= s.len(),
        forall|j: int| 0 <= j < count_less(s, c) ==> commodity_lt(#[trigger] s[j], c),
        forall|j: int| count_less(s, c) <= j < s.len() ==> !commodity_lt(#[trigger] s[j], c),
    decreases s.len(),
{
    if s.len() > 0 {
        let t = s.drop_last();
        assert forall|a: int, b: int| 0 <= a < b < t.len() implies commodity_lt(
            #[trigger] t[a],
            #[trigger] t[b],
        ) by {
            assert(t[a] == s[a] && t[b] == s[b]);
        }
        lemma_count_less_split(t, c);
        if commodity_lt(s.last(), c) {
            assert forall|j: int| 0 <= j < t.len() implies commodity_lt(#[trigger] t[j], c) by {
                assert(commodity_lt(s[j], s[s.len() - 1]));
                lemma_commodity_transitive(t[j], s.last(), c);
            }
            if count_less(t, c) < t.len() {
                assert(commodity_lt(t[count_less(t, c) as int], c));
            }
        }
        assert forall|j: int| 0 <= j < t.len() implies #[trigger] s[j] == t[j] by {}
    }
}

/// A list that holds a commodity holds an entry with its identifier.
pub proof fn lemma_contains_has_id(s: Seq<CommodityView>, c: CommodityView)
    requires
        s.contains(c),
    ensures
        id_index(s, c.0) >= 0,
{
    lemma_id_index(s, c.0);
    let k = choose|k: int| 0 <= k < s.len() && s[k] == c;
    assert(s[k].0 == c.0);
}

/// Inserting by order keeps every identifier there and adds the new one.
pub proof fn lemma_sorted_insert_ids(s: Seq<CommodityView>, c: CommodityView, x: Seq<u8>)
    requires
        strictly_sorted(s),
    ensures
        id_index(s, x) >= 0 ==> id_index(sorted_insert(s, c), x) >= 0,
        id_index(sorted_insert(s, c), c.0) >= 0,
        sorted_insert(s, c).len() <= s.len() + 1,
{
    lemma_sorted_insert(s, c);
    lemma_count_less_split(s, c);
    lemma_contains_has_id(sorted_insert(s, c), c);
    lemma_id_index(s, x);
    if id_index(s, x) >= 0 {
        let e = s[id_index(s, x)];
        assert(s.contains(e));
        assert(sorted_insert(s, c).contains(e));
        lemma_contains_has_id(sorted_insert(s, c), e);
    }
}

/// Taking out the entry for `id` keeps the entries for the other identifiers.
pub proof fn lemma_without_id_ids(s: Seq<CommodityView>, id: Seq<u8>, x: Seq<u8>)
    ensures
        id != x && id_index(s, x) >= 0 ==> id_index(without_id(s, id), x) >= 0,
        id_index(s, id) >= 0 ==> without_id(s, id).len() == s.len() - 1,
        without_id(s, id).len() <= s.len(),
{
    lemma_id_index(s, id);
    lemma_id_index(s, x);
    if id != x && id_index(s, x) >= 0 && id_index(s, id) >= 0 {
        let i = id_index(s, id);
        let j = id_index(s, x);
        let e = s[j];
        let t = s.remove(i);
        if j < i {
            assert(t[j] == e);
            assert(t.contains(e));
        } else {
            assert(j != i);
            assert(t[j - 1] == e);
            assert(t.contains(e));
        }
        lemma_contains_has_id(t, e);
    }
}

/// Inserting a commodity by order into a list with no entry for its
/// identifier, then taking out the entry for that identifier, gives the list back.
pub proof fn lemma_insert_then_without(s: Seq<CommodityView>, c: CommodityView)
    requires
        strictly_sorted(s),
        id_index(s, c.0) < 0,
    ensures
        without_id(sorted_insert(s, c), c.0) == s,
        id_index(sorted_insert(s, c), c.0) >= 0,
        sorted_insert(s, c)[id_index(sorted_insert(s, c), c.0)] == c,
{
    lemma_id_index(s, c.0);
    if s.contains(c) {
        let k = choose|k: int| 0 <= k < s.len() && s[k] == c;
        assert(s[k].0 == c.0);
    }
    lemma_count_less_split(s, c);
    let p = count_less(s, c) as int;
    let t = s.insert(p, c);
    assert(sorted_insert(s, c) == t);
    lemma_id_index(t, c.0);
    assert forall|j: int| 0 <= j < p implies #[trigger] t[j].0 != c.0 by {
        assert(t[j] == s[j]);
    }
    assert(t[p].0 == c.0);
    assert(id_index(t, c.0) == p);
    assert(t.remove(p) =~= s);
}

/// No identifier occurs twice in the list.
pub open spec fn ids_distinct(s: Seq<CommodityView>) -> bool {
    forall|i: int, j: int| 0 <= i < j < s.len() ==> #[trigger] s[i].0 != #[trigger] s[j].0
}

/// Inserting by order a commodity whose identifier is new to the list adds
/// exactly that commodity and keeps the identifiers distinct.
pub proof fn lemma_insert_fresh(s: Seq<CommodityView>, c: CommodityView)
    requires
        strictly_sorted(s),
        ids_distinct(s),
        forall|j: int| 0 <= j < s.len() ==> #[trigger] s[j].0 != c.0,
    ensures
        ids_distinct(sorted_insert(s, c)),
        sorted_insert(s, c).len() == s.len() + 1,
        forall|k: int|
            0 <= k < sorted_insert(s, c).len() ==> #[trigger] sorted_insert(s, c)[k] == c || (
            sorted_insert(s, c)[k].0 != c.0 && s.contains(sorted_insert(s, c)[k])),
{
    if s.contains(c) {
        let k = choose|k: int| 0 <= k < s.len() && s[k] == c;
        assert(s[k].0 == c.0);
    }
    lemma_count_less_split(s, c);
    let p = count_less(s, c) as int;
    let t = s.insert(p, c);
    assert(sorted_insert(s, c) == t);
    assert forall|a: int, b: int| 0 <= a < b < t.len() implies #[trigger] t[a].0 != #[trigger] t[b].0 by {
        if a < p && b < p {
            assert(t[a] == s[a] && t[b] == s[b]);
        } else if a < p && b == p {
            assert(t[a] == s[a]);
        } else if a < p {
            assert(t[a] == s[a] && t[b] == s[b - 1]);
        } else if a == p {
            assert(t[b] == s[b - 1]);
        } else {
            assert(t[a] == s[a - 1] && t[b] == s[b - 1]);
        }
    }
    assert forall|k: int| 0 <= k < t.len() implies #[trigger] t[k] == c || (t[k].0 != c.0
        && s.contains(t[k])) by {
        if k < p {
            assert(t[k] == s[k]);
        } else if k > p {
            assert(t[k] == s[k - 1]);
        }
    }
}

/// Removing an entry keeps the identifiers distinct, and what stays has
/// another identifier than the removed entry.
pub proof fn lemma_remove_distinct(s: Seq<CommodityView>, i: int)
    requires
        ids_distinct(s),
        0 <= i < s.len(),
    ensures
        ids_distinct(s.remove(i)),
        forall|k: int|
            0 <= k < s.remove(i).len() ==> s.contains(#[trigger] s.remove(i)[k]) && s.remove(
                i,
            )[k].0 != s[i].0,
{
    let t = s.remove(i);
    assert forall|a: int, b: int| 0 <= a < b < t.len() implies #[trigger] t[a].0 != #[trigger] t[b].0 by {
        let a2 = if a < i { a } else { a + 1 };
        let b2 = if b < i { b } else { b + 1 };
        assert(t[a] == s[a2] && t[b] == s[b2]);
    }
    assert forall|k: int| 0 <= k < t.len() implies s.contains(#[trigger] t[k]) && t[k].0 != s[i].0 by {
        let k2 = if k < i { k } else { k + 1 };
        assert(t[k] == s[k2]);
        if k2 < i {
            assert(s[k2].0 != s[i].0);
        } else {
            assert(s[i].0 != s[k2].0);
        }
    }
}

/// Removing an element keeps a list sorted.
pub proof fn lemma_remove_sorted(s: Seq<CommodityView>, i: int)
    requires
        strictly_sorted(s),
        0 <= i < s.len(),
    ensures
        strictly_sorted(s.remove(i)),
{
    let r = s.remove(i);
    assert forall|a: int, b: int| 0 <= a < b < r.len() implies commodity_lt(r[a], r[b]) by {
        let a2 = if a < i { a } else { a + 1 };
        let b2 = if b < i { b } else { b + 1 };
        assert(r[a] == s[a2] && r[b] == s[b2]);
    }
}

/// Inserting by order keeps a list sorted, and adds exactly the new element.
pub proof fn lemma_sorted_insert(s: Seq<CommodityView>, c: CommodityView)
    requires
        strictly_sorted(s),
    ensures
        strictly_sorted(sorted_insert(s, c)),
        sorted_insert(s, c).contains(c),
        forall|x: CommodityView| #[trigger] sorted_insert(s, c).contains(x) <==> (s.contains(x) || x == c),
{
    if !s.contains(c) {
        let p = count_less(s, c) as int;
        lemma_count_less_split(s, c);
        let r = s.insert(p, c);
        assert forall|j: int| p <= j < s.len() implies commodity_lt(c, #[trigger] s[j]) by {
            lemma_commodity_trichotomy(s[j], c);
            assert(s[j] != c);
        }
        assert forall|a: int, b: int| 0 <= a < b < r.len() implies commodity_lt(
            #[trigger] r[a],
            #[trigger] r[b],
        ) by {
            if a < p && b < p {
                assert(r[a] == s[a] && r[b] == s[b]);
            } else if a < p && b == p {
            } else if a < p {
                assert(r[a] == s[a] && r[b] == s[b - 1]);
            } else if a == p {
                assert(r[b] == s[b - 1]);
            } else {
                assert(r[a] == s[a - 1] && r[b] == s[b - 1]);
            }
        }
        assert forall|x: CommodityView| #[trigger] r.contains(x) <==> (s.contains(x) || x == c) by {
            if r.contains(x) {
                let k = choose|k: int| 0 <= k < r.len() && r[k] == x;
                if k < p {
                    assert(s[k] == x);
                } else if k > p {
                    assert(s[k - 1] == x);
                }
            }
            if s.contains(x) {
                let k = choose|k: int| 0 <= k < s.len() && s[k] == x;
                if k < p {
                    assert(r[k] == x);
                } else {
                    assert(r[k + 1] == x);
                }
            }
            if x == c {
                assert(r[p] == c);
            }
        }
    }
}

/// Taking an element out of a sorted list and inserting it again gives the list back.
pub proof fn lemma_remove_reinsert(s: Seq<CommodityView>, i: int)
    requires
        strictly_sorted(s),
        0 <= i < s.len(),
    ensures
        sorted_insert(s.remove(i), s[i]) == s,
{
    let r = s.remove(i);
    let c = s[i];
    assert forall|j: int| 0 <= j < r.len() implies #[trigger] r[j] != c by {
        if j < i {
            assert(r[j] == s[j]);
        } else {
            assert(r[j] == s[j + 1]);
        }
        lemma_commodity_trichotomy(r[j], c);
    }
    assert(!r.contains(c));
    assert forall|j: int| 0 <= j < i implies commodity_lt(#[trigger] r[j], c) by {
        assert(r[j] == s[j]);
    }
    assert forall|j: int| i <= j < r.len() implies !commodity_lt(#[trigger] r[j], c) by {
        assert(r[j] == s[j + 1]);
        lemma_commodity_trichotomy(r[j], c);
    }
    lemma_count_less(r, c, i);
    assert(r.insert(i, c) =~= s);
}

/// Compares two commodities by identifier, then by info.
pub fn compare_commodities(a: &Commodity, b: &Commodity) -> (r: Comparison)
    ensures
        r == Comparison::Less <==> commodity_lt(commodity_view(*a), commodity_view(*b)),
        r == Comparison::Equal <==> commodity_view(*a) == commodity_view(*b),
        r == Comparison::Greater <==> commodity_lt(commodity_view(*b), commodity_view(*a)),
{
    proof {
        lemma_commodity_trichotomy(commodity_view(*a), commodity_view(*b));
    }
    match compare_bytes(a.0.as_slice(), b.0.as_slice()) {
        Comparison::Equal => compare_bytes(a.1.as_slice(), b.1.as_slice()),
        other => other,
    }
}

/// Searches a sorted list: `Ok` with the index of `target`, or `Err` with the
/// index at which `target` would have to be inserted.
pub fn search_commodity(list: &Vec<Commodity>, target: &Commodity) -> (r: Result<usize, usize>)
    requires
        strictly_sorted(commodities_view(list@)),
    ensures
        match r {
            Ok(i) => i < list@.len() && commodities_view(list@)[i as int] == commodity_view(*target),
            Err(i) => {
                &&& i <= list@.len()
                &&& forall|j: int|
                    0 <= j < i ==> commodity_lt(
                        #[trigger] commodities_view(list@)[j],
                        commodity_view(*target),
                    )
                &&& forall|j: int|
                    i <= j < list@.len() ==> commodity_lt(
                        commodity_view(*target),
                        #[trigger] commodities_view(list@)[j],
                    )
            },
        },
{
    let ghost v = commodities_view(list@);
    let ghost t = commodity_view(*target);
    let mut lo: usize = 0;
    let mut hi: usize = list.len();
    while lo < hi
        invariant
            v == commodities_view(list@),
            t == commodity_view(*target),
            strictly_sorted(v),
            lo <= hi <= list@.len(),
            forall|j: int| 0 <= j < lo ==> commodity_lt(#[trigger] v[j], t),
            forall|j: int| hi <= j < list@.len() ==> commodity_lt(t, #[trigger] v[j]),
        decreases hi - lo,
    {
        let mid = lo + (hi - lo) / 2;
        match compare_commodities(&list[mid], target) {
            Comparison::Less => {
                assert forall|j: int| 0 <= j <= mid implies commodity_lt(#[trigger] v[j], t) by {
                    if j < mid {
                        lemma_commodity_transitive(v[j], v[mid as int], t);
                    }
                }
                lo = mid + 1;
            },
            Comparison::Greater => {
                assert forall|j: int| mid <= j < list@.len() implies commodity_lt(
                    t,
                    #[trigger] v[j],
                ) by {
                    if j > mid {
                        lemma_commodity_transitive(t, v[mid as int], v[j]);
                    }
                }
                hi = mid;
            },
            Comparison::Equal => {
                return Ok(mid);
            },
        }
    }
    Err(lo)
}

/// Inserts a commodity into a sorted list in its place, unless it is already there.
pub fn insert_commodity(list: &mut Vec<Commodity>, c: Commodity)
    requires
        strictly_sorted(commodities_view(old(list)@)),
    ensures
        commodities_view(final(list)@) == sorted_insert(
            commodities_view(old(list)@),
            commodity_view(c),
        ),
        strictly_sorted(commodities_view(final(list)@)),
{
    let ghost v = commodities_view(list@);
    let ghost t = commodity_view(c);
    proof {
        lemma_sorted_insert(v, t);
    }
    match search_commodity(list, &c) {
        Ok(i) => {
            assert(v.contains(t));
        },
        Err(i) => {
            assert forall|j: int| 0 <= j < v.len() implies #[trigger] v[j] != t by {
                lemma_commodity_trichotomy(v[j], t);
            }
            assert(!v.contains(t));
            assert forall|j: int| i <= j < v.len() implies !commodity_lt(#[trigger] v[j], t) by {
                lemma_commodity_trichotomy(v[j], t);
            }
            proof {
                lemma_count_less(v, t, i as int);
            }
            list.insert(i, c);
            assert(commodities_view(list@) =~= v.insert(i as int, t));
        },
    }
}

/// The index of the first commodity in a sorted list with the given identifier.
pub fn find_id(list: &Vec<Commodity>, id: &CommodityId) -> (r: Option<usize>)
    requires
        strictly_sorted(commodities_view(list@)),
    ensures
        match r {
            Some(i) => i as int == id_index(commodities_view(list@), id@),
            None => id_index(commodities_view(list@), id@) < 0,
        },
{
    let ghost v = commodities_view(list@);
    proof {
        lemma_id_index(v, id@);
    }
    let mut lo: usize = 0;
    let mut hi: usize = list.len();
    while lo < hi
        invariant
            v == commodities_view(list@),
            strictly_sorted(v),
            lo <= hi <= list@.len(),
            forall|j: int| 0 <= j < lo ==> lex_lt(#[trigger] v[j].0, id@),
            forall|j: int| hi <= j < list@.len() ==> !lex_lt(#[trigger] v[j].0, id@),
        decreases hi - lo,
    {
        let mid = lo + (hi - lo) / 2;
        match compare_bytes(list[mid].0.as_slice(), id.as_slice()) {
            Comparison::Less => {
                assert forall|j: int| 0 <= j <= mid implies lex_lt(#[trigger] v[j].0, id@) by {
                    if j < mid {
                        assert(commodity_lt(v[j], v[mid as int]));
                        if v[j].0 != v[mid as int].0 {
                            lemma_lex_transitive(v[j].0, v[mid as int].0, id@);
                        }
                    }
                }
                lo = mid + 1;
            },
            _ => {
                assert forall|j: int| mid <= j < list@.len() implies !lex_lt(
                    #[trigger] v[j].0,
                    id@,
                ) by {
                    lemma_lex_trichotomy(v[mid as int].0, id@);
                    lemma_lex_trichotomy(v[j].0, id@);
                    if j > mid {
                        assert(commodity_lt(v[mid as int], v[j]));
                        if v[mid as int].0 != v[j].0 && v[mid as int].0 != id@ {
                            lemma_lex_transitive(id@, v[mid as int].0, v[j].0);
                        }
                    }
                }
                hi = mid;
            },
        }
    }
    assert forall|j: int| 0 <= j < lo implies #[trigger] v[j].0 != id@ by {
        lemma_lex_trichotomy(v[j].0, id@);
    }
    if lo < list.len() && compare_bytes(list[lo].0.as_slice(), id.as_slice()) == Comparison::Equal {
        assert(v[lo as int] == commodity_view(list@[lo as int]));
        Some(lo)
    } else {
        assert forall|j: int| lo <= j < v.len() implies #[trigger] v[j].0 != id@ by {
            lemma_lex_trichotomy(v[lo as int].0, id@);
            if j > lo {
                assert(commodity_lt(v[lo as int], v[j]));
                lemma_lex_trichotomy(v[j].0, id@);
                if v[lo as int].0 != v[j].0 {
                    lemma_lex_transitive(id@, v[lo as int].0, v[j].0);
                }
            }
        }
        None
    }
}

/// Takes the first commodity with the given identifier out of a sorted list.
pub fn take_id(list: &mut Vec<Commodity>, id: &CommodityId) -> (r: Option<Commodity>)
    requires
        strictly_sorted(commodities_view(old(list)@)),
    ensures
        strictly_sorted(commodities_view(final(list)@)),
        commodities_view(final(list)@) == without_id(commodities_view(old(list)@), id@),
        match r {
            Some(c) => {
                &&& id_index(commodities_view(old(list)@), id@) >= 0
                &&& commodity_view(c) == commodities_view(old(list)@)[id_index(
                    commodities_view(old(list)@),
                    id@,
                )]
            },
            None => id_index(commodities_view(old(list)@), id@) < 0,
        },
{
    let ghost v = commodities_view(list@);
    proof {
        lemma_id_index(v, id@);
    }
    match find_id(list, id) {
        Some(i) => {
            let c = list.remove(i);
            proof {
                lemma_remove_sorted(v, i as int);
                assert(commodities_view(list@) =~= v.remove(i as int));
            }
            Some(c)
        },
        None => None,
    }
}

} // verus!
