//! The launcher list: stable ordering, renumbering and validity of the entries.
use vstd::prelude::*;

use crate::launch_item::{item_problem, LaunchItem, LaunchItemView};

verus! {

/// The views of a list of launcher entries.
pub open spec fn items_view(v: Seq<LaunchItem>) -> Seq<LaunchItemView> {
    v.map_values(|x: LaunchItem| x@)
}

/// Inserts `x` after every trailing entry whose order does not exceed its own: in a
/// list sorted by order, right after the last entry with an order `<= x.order`.
pub open spec fn insert_by_order(r: Seq<LaunchItemView>, x: LaunchItemView) -> Seq<
    LaunchItemView,
>
    decreases r.len(),
{
    if r.len() == 0 {
        seq![x]
    } else if r.last().order <= x.order {
        r.push(x)
    } else {
        insert_by_order(r.drop_last(), x).push(r.last())
    }
}

/// The entries sorted by `order`, entries with equal orders kept in the
/// relative order they had in the input (insertion sort, as `sort_by_key` orders them).
pub open spec fn sort_by_order(s: Seq<LaunchItemView>) -> Seq<LaunchItemView>
    decreases s.len(),
{
    if s.len() == 0 {
        seq![]
    } else {
        insert_by_order(sort_by_order(s.drop_last()), s.last())
    }
}

/// `v` with its display position replaced by `order`.
pub open spec fn with_order(v: LaunchItemView, order: u32) -> LaunchItemView {
    LaunchItemView {
        id: v.id,
        kind: v.kind,
        name: v.name,
        icon: v.icon,
        order,
        platform: v.platform,
        launch: v.launch,
    }
}

/// Each entry's order replaced by its index.
pub open spec fn renumber(s: Seq<LaunchItemView>) -> Seq<LaunchItemView> {
    Seq::new(s.len(), |i: int| with_order(s[i], i as u32))
}

/// The first failure met while renumbering from index `i` on: an index that does not
/// fit in `u32`, or an invalid entry.
pub open spec fn first_problem(s: Seq<LaunchItemView>, i: int) -> Option<Seq<char>>
    decreases s.len() - i,
{
    if i < 0 || i >= s.len() {
        None
    } else if i > u32::MAX {
        Some("too many launcher items"@)
    } else if item_problem(s[i]) is Some {
        item_problem(s[i])
    } else {
        first_problem(s, i + 1)
    }
}

/// No two entries share an id.
pub open spec fn ids_distinct(s: Seq<LaunchItemView>) -> bool {
    forall|i: int, j: int| 0 <= i < j < s.len() ==> s[i].id != s[j].id
}

/// Orders strictly increase along the list.
pub open spec fn strictly_ordered(s: Seq<LaunchItemView>) -> bool {
    forall|i: int, j: int| 0 <= i < j < s.len() ==> s[i].order < s[j].order
}

/// A valid launcher list: every entry valid, orders strictly increasing, ids distinct.
pub open spec fn launch_items_ok(s: Seq<LaunchItemView>) -> bool {
    &&& forall|i: int| 0 <= i < s.len() ==> (#[trigger] item_problem(s[i])) is None
    &&& strictly_ordered(s)
    &&& ids_distinct(s)
}

/// What replacing the launcher list by `items` yields: the sorted and renumbered list,
/// or the message of the first failure (an invalid entry or too many entries, met in
/// sorted order; then a duplicate id).
pub open spec fn launcher_outcome(items: Seq<LaunchItemView>) -> Result<
    Seq<LaunchItemView>,
    Seq<char>,
> {
    let sorted = sort_by_order(items);
    match first_problem(sorted, 0) {
        Some(m) => Err(m),
        None => if ids_distinct(sorted) {
            Ok(renumber(sorted))
        } else {
            Err("duplicate launcher item"@)
        },
    }
}

proof fn lemma_insert_at(r: Seq<LaunchItemView>, x: LaunchItemView, j: int)
    requires
        0 <= j <= r.len(),
        forall|k: int| j <= k < r.len() ==> (#[trigger] r[k]).order > x.order,
        j == 0 || r[j - 1].order <= x.order,
    ensures
        insert_by_order(r, x) == r.insert(j, x),
    decreases r.len(),
{
    if r.len() == 0 {
        assert(r.insert(j, x) =~= seq![x]);
    } else if j == r.len() {
        assert(r.insert(j, x) =~= r.push(x));
    } else {
        let t = r.drop_last();
        assert forall|k: int| j <= k < t.len() implies (#[trigger] t[k]).order > x.order by {
            assert(t[k] == r[k]);
        }
        lemma_insert_at(t, x, j);
        assert(t.insert(j, x).push(r.last()) =~= r.insert(j, x));
    }
}

/// Sorting keeps every entry and only reorders them.
pub proof fn lemma_sort_is_permutation(s: Seq<LaunchItemView>)
    ensures
        sort_by_order(s).to_multiset() =~= s.to_multiset(),
        sort_by_order(s).len() == s.len(),
    decreases s.len(),
{
    broadcast use vstd::seq_lib::group_to_multiset_ensures;

    if s.len() > 0 {
        lemma_sort_is_permutation(s.drop_last());
        lemma_insert_is_permutation(sort_by_order(s.drop_last()), s.last());
        assert(s.drop_last().push(s.last()) =~= s);
    }
}

proof fn lemma_insert_is_permutation(r: Seq<LaunchItemView>, x: LaunchItemView)
    ensures
        insert_by_order(r, x).to_multiset() =~= r.to_multiset().insert(x),
        insert_by_order(r, x).len() == r.len() + 1,
    decreases r.len(),
{
    broadcast use vstd::seq_lib::group_to_multiset_ensures;

    if r.len() == 0 {
        assert(seq![x] =~= r.push(x));
    } else if r.last().order <= x.order {
    } else {
        lemma_insert_is_permutation(r.drop_last(), x);
        assert(r.drop_last().push(r.last()) =~= r);
    }
}

/// Sorting yields a list whose orders never decrease.
pub proof fn lemma_sort_is_sorted(s: Seq<LaunchItemView>)
    ensures
        forall|i: int, j: int|
            0 <= i <= j < sort_by_order(s).len() ==> sort_by_order(s)[i].order
                <= sort_by_order(s)[j].order,
    decreases s.len(),
{
    if s.len() > 0 {
        lemma_sort_is_sorted(s.drop_last());
        lemma_insert_keeps_sorted(sort_by_order(s.drop_last()), s.last());
    }
}

proof fn lemma_insert_keeps_sorted(r: Seq<LaunchItemView>, x: LaunchItemView)
    requires
        forall|i: int, j: int| 0 <= i <= j < r.len() ==> r[i].order <= r[j].order,
    ensures
        forall|i: int, j: int|
            0 <= i <= j < insert_by_order(r, x).len() ==> insert_by_order(r, x)[i].order
                <= insert_by_order(r, x)[j].order,
        insert_by_order(r, x).len() == r.len() + 1,
    decreases r.len(),
{
    if r.len() > 0 && r.last().order > x.order {
        let t = r.drop_last();
        lemma_insert_keeps_sorted(t, x);
        let u = insert_by_order(t, x);
        lemma_insert_is_permutation(t, x);
        assert forall|i: int| 0 <= i < u.len() implies u[i].order <= r.last().order by {
            broadcast use vstd::seq_lib::group_to_multiset_ensures;

            assert(u.to_multiset().count(u[i]) > 0);
            assert(t.to_multiset().insert(x).count(u[i]) > 0);
            if u[i] != x {
                assert(t.contains(u[i]));
                let k = choose|k: int| 0 <= k < t.len() && t[k] == u[i];
                assert(r[k] == t[k]);
            }
        }
    }
}

/// The entries whose display position is `key`.
pub open spec fn has_order(key: u32) -> spec_fn(LaunchItemView) -> bool {
    |v: LaunchItemView| v.order == key
}

/// Sorting is stable: for every order value, the entries carrying it keep the
/// relative order they had in the input.
pub proof fn lemma_sort_is_stable(s: Seq<LaunchItemView>, key: u32)
    ensures
        sort_by_order(s).filter(has_order(key)) == s.filter(has_order(key)),
    decreases s.len(),
{
    let p = has_order(key);
    if s.len() == 0 {
        assert(s.filter(p) =~= Seq::<LaunchItemView>::empty()) by {
            reveal(Seq::filter);
        }
        assert(sort_by_order(s).filter(p) =~= Seq::<LaunchItemView>::empty()) by {
            reveal(Seq::filter);
        }
    } else {
        lemma_sort_is_stable(s.drop_last(), key);
        lemma_insert_filter(sort_by_order(s.drop_last()), s.last(), key);
        assert(s.drop_last().push(s.last()) =~= s);
        s.drop_last().lemma_filter_push(s.last(), p);
        sort_by_order(s.drop_last()).lemma_filter_push(s.last(), p);
    }
}

proof fn lemma_insert_filter(r: Seq<LaunchItemView>, x: LaunchItemView, key: u32)
    ensures
        insert_by_order(r, x).filter(has_order(key)) == r.push(x).filter(has_order(key)),
    decreases r.len(),
{
    let p = has_order(key);
    if r.len() == 0 {
        assert(seq![x] =~= r.push(x));
    } else if r.last().order <= x.order {
    } else {
        let t = r.drop_last();
        lemma_insert_filter(t, x, key);
        insert_by_order(t, x).lemma_filter_push(r.last(), p);
        t.lemma_filter_push(x, p);
        t.push(x).lemma_filter_push(r.last(), p);
        t.lemma_filter_push(r.last(), p);
        t.push(r.last()).lemma_filter_push(x, p);
        assert(t.push(r.last()) =~= r);
    }
}

/// A list whose orders already strictly increase is left as it is by sorting.
pub proof fn lemma_sort_of_ordered(s: Seq<LaunchItemView>)
    requires
        strictly_ordered(s),
    ensures
        sort_by_order(s) == s,
    decreases s.len(),
{
    if s.len() > 0 {
        let t = s.drop_last();
        assert(strictly_ordered(t));
        lemma_sort_of_ordered(t);
        if t.len() > 0 {
            assert(t.last().order <= s.last().order);
        }
        assert(t.push(s.last()) =~= s);
    }
}

proof fn lemma_first_problem_none(s: Seq<LaunchItemView>, i: int)
    requires
        0 <= i <= s.len(),
        first_problem(s, i) is None,
    ensures
        forall|k: int| i <= k < s.len() ==> (#[trigger] item_problem(s[k])) is None,
        s.len() <= i || s.len() <= u32::MAX + 1,
    decreases s.len() - i,
{
    if i < s.len() {
        lemma_first_problem_none(s, i + 1);
    }
}

proof fn lemma_first_problem_of_valid(s: Seq<LaunchItemView>, i: int)
    requires
        0 <= i <= s.len() <= u32::MAX + 1,
        forall|k: int| 0 <= k < s.len() ==> (#[trigger] item_problem(s[k])) is None,
    ensures
        first_problem(s, i) is None,
    decreases s.len() - i,
{
    if i < s.len() {
        lemma_first_problem_of_valid(s, i + 1);
    }
}

/// A successful replacement stores a valid launcher list numbered `0, 1, 2, ...`.
pub proof fn lemma_outcome_is_valid(items: Seq<LaunchItemView>)
    requires
        launcher_outcome(items) is Ok,
    ensures
        launch_items_ok(launcher_outcome(items)->Ok_0),
        forall|i: int|
            0 <= i < launcher_outcome(items)->Ok_0.len() ==> (#[trigger] launcher_outcome(
                items,
            )->Ok_0[i]).order == i,
        launcher_outcome(items)->Ok_0.len() == items.len(),
{
    let sorted = sort_by_order(items);
    lemma_sort_is_permutation(items);
    lemma_first_problem_none(sorted, 0);
    let out = renumber(sorted);
    assert forall|i: int| 0 <= i < out.len() implies (#[trigger] item_problem(out[i])) is None by {
        assert(item_problem(sorted[i]) is None);
    }
}

/// Replacing the launcher list by a valid list already numbered `0, 1, 2, ...` stores
/// that very list.
pub proof fn lemma_outcome_of_current(items: Seq<LaunchItemView>)
    requires
        launch_items_ok(items),
        forall|i: int| 0 <= i < items.len() ==> (#[trigger] items[i]).order == i,
    ensures
        launcher_outcome(items) == Ok::<Seq<LaunchItemView>, Seq<char>>(items),
{
    lemma_sort_of_ordered(items);
    if items.len() > u32::MAX + 1 {
        let k = u32::MAX + 1;
        assert(items[k].order == k);
    }
    lemma_first_problem_of_valid(items, 0);
    assert(renumber(items) =~= items);
}

/// Sorts launcher entries by order, keeping entries with equal orders in the
/// relative order they had in the input.
pub fn sorted_by_order(items: Vec<LaunchItem>) -> (r: Vec<LaunchItem>)
    ensures
        items_view(r@) == sort_by_order(items_view(items@)),
{
    let ghost orig = items@;
    let mut rest = items;
    let mut out: Vec<LaunchItem> = Vec::new();
    let ghost mut i: int = 0;
    assert(items_view(orig.take(0)) =~= Seq::<LaunchItemView>::empty());
    while rest.len() > 0
        invariant
            0 <= i <= orig.len(),
            rest@ == orig.skip(i),
            items_view(out@) == sort_by_order(items_view(orig.take(i))),
        decreases rest.len(),
    {
        let x = rest.remove(0);
        let mut j = out.len();
        while j > 0 && out[j - 1].order > x.order
            invariant
                j <= out@.len(),
                forall|k: int| j <= k < out@.len() ==> (#[trigger] out@[k]).order > x.order,
            decreases j,
        {
            j -= 1;
        }
        let ghost before = items_view(out@);
        proof {
            assert forall|k: int| j <= k < before.len() implies (#[trigger] before[k]).order
                > x@.order by {
                assert(before[k] == out@[k]@);
            }
            if j > 0 {
                assert(before[j - 1] == out@[j - 1]@);
            }
            lemma_insert_at(before, x@, j as int);
        }
        out.insert(j, x);
        proof {
            assert(items_view(out@) =~= before.insert(j as int, x@));
            let pre = items_view(orig.take(i + 1));
            assert(pre.drop_last() =~= items_view(orig.take(i)));
            assert(x == orig[i]);
            assert(pre.last() == x@);
            i = i + 1;
            assert(rest@ =~= orig.skip(i));
        }
    }
    assert(orig.take(i) =~= orig);
    out
}

/// Tells whether no two entries share an id.
pub fn distinct_ids(items: &Vec<LaunchItem>) -> (r: bool)
    ensures
        r == ids_distinct(items_view(items@)),
{
    let n = items.len();
    let ghost v = items_view(items@);
    let mut j: usize = 0;
    while j < n
        invariant
            j <= n == items@.len() == v.len(),
            v == items_view(items@),
            forall|a: int, b: int| 0 <= a < b < j ==> v[a].id != v[b].id,
        decreases n - j,
    {
        let mut a: usize = 0;
        while a < j
            invariant
                a <= j < n == items@.len() == v.len(),
                v == items_view(items@),
                forall|c: int| 0 <= c < a ==> v[c].id != v[j as int].id,
            decreases j - a,
        {
            if items[a].id == items[j].id {
                assert(v[a as int].id == v[j as int].id);
                return false;
            }
            a += 1;
        }
        j += 1;
    }
    true
}

/// Tells whether the launcher list is valid (`launch_items_ok`).
pub fn launch_items_valid(items: &Vec<LaunchItem>) -> (r: bool)
    ensures
        r == launch_items_ok(items_view(items@)),
{
    let n = items.len();
    let ghost v = items_view(items@);
    let mut k: usize = 0;
    while k < n
        invariant
            k <= n == items@.len() == v.len(),
            v == items_view(items@),
            forall|i: int| 0 <= i < k ==> (#[trigger] item_problem(v[i])) is None,
            forall|a: int, b: int| 0 <= a < b < k ==> v[a].order < v[b].order,
        decreases n - k,
    {
        if items[k].validate().is_err() {
            assert(item_problem(v[k as int]) is Some);
            return false;
        }
        if k > 0 && items[k - 1].order >= items[k].order {
            assert(v[k - 1].order >= v[k as int].order);
            return false;
        }
        proof {
            if k > 0 {
                assert forall|a: int, b: int| 0 <= a < b < k + 1 implies v[a].order
                    < v[b].order by {
                    if b == k && a < k - 1 {
                        assert(v[a].order < v[k - 1].order);
                    }
                }
            }
        }
        k += 1;
    }
    distinct_ids(items)
}

} // verus!
