//! Page lists and stable ordering.
//!
//! A page list is strictly increasing, so it is fixed by the pages it holds. A stable sort is
//! fixed by its keys: equal keys keep the order they came in.

use vstd::prelude::*;

verus! {

/// The pages below `count` that `keep` holds of, in increasing order.
pub open spec fn kept(count: nat, keep: spec_fn(u32) -> bool) -> Seq<u32>
    decreases count,
{
    if count == 0 {
        Seq::empty()
    } else {
        let page = (count - 1) as u32;
        if keep(page) {
            kept((count - 1) as nat, keep).push(page)
        } else {
            kept((count - 1) as nat, keep)
        }
    }
}

/// Strictly increasing: sorted, and nothing twice.
pub open spec fn increasing(s: Seq<u32>) -> bool {
    forall|i: int, j: int| 0 <= i < j < s.len() ==> #[trigger] s[i] < #[trigger] s[j]
}

/// What a kept list holds: exactly the wanted pages below the count, strictly increasing.
pub proof fn kept_holds(count: nat, keep: spec_fn(u32) -> bool)
    requires
        count <= u32::MAX + 1,
    ensures
        increasing(kept(count, keep)),
        kept(count, keep).len() <= count,
        forall|p: u32| #[trigger] kept(count, keep).contains(p) <==> p < count && keep(p),
        forall|i: int|
            0 <= i < kept(count, keep).len() ==> #[trigger] kept(count, keep)[i] < count && keep(
                kept(count, keep)[i],
            ),
    decreases count,
{
    if count > 0 {
        let rest = kept((count - 1) as nat, keep);
        let all = kept(count, keep);
        let page = (count - 1) as u32;
        kept_holds((count - 1) as nat, keep);
        assert forall|p: u32| #[trigger] all.contains(p) <==> p < count && keep(p) by {
            if all.contains(p) {
                let i = choose|i: int| 0 <= i < all.len() && all[i] == p;
                if i < rest.len() {
                    assert(rest[i] == p);
                    assert(rest.contains(p));
                }
            }
            if p < count && keep(p) {
                if p == page {
                    assert(all[all.len() - 1] == p);
                } else {
                    assert(rest.contains(p));
                    let i = choose|i: int| 0 <= i < rest.len() && rest[i] == p;
                    assert(all[i] == p);
                }
            }
        }
        assert forall|i: int, j: int| 0 <= i < j < all.len() implies #[trigger] all[i]
            < #[trigger] all[j] by {
            if keep(page) && j == all.len() - 1 {
                assert(rest[i] == all[i]);
            } else {
                assert(rest[i] == all[i] && rest[j] == all[j]);
            }
        }
        assert forall|i: int| 0 <= i < all.len() implies #[trigger] all[i] < count && keep(
            all[i],
        ) by {
            if i < rest.len() {
                assert(rest[i] == all[i]);
            }
        }
    }
}

/// A kept list is as long as the count exactly when nothing was left out.
pub proof fn kept_of_all(count: nat, keep: spec_fn(u32) -> bool)
    requires
        count <= u32::MAX,
    ensures
        kept(count, keep).len() == count <==> forall|p: u32| p < count ==> #[trigger] keep(p),
    decreases count,
{
    if count > 0 {
        let page = (count - 1) as u32;
        kept_of_all((count - 1) as nat, keep);
        kept_holds((count - 1) as nat, keep);
        if forall|p: u32| p < count ==> #[trigger] keep(p) {
            assert(keep(page));
        }
        if kept(count, keep).len() == count {
            assert forall|p: u32| p < count implies #[trigger] keep(p) by {
                if p < count - 1 {
                    assert(p < (count - 1) as nat);
                }
            }
        }
    }
}

/// Two strictly increasing lists that hold the same pages are the same list.
pub proof fn increasing_fixed_by_contents(a: Seq<u32>, b: Seq<u32>)
    requires
        increasing(a),
        increasing(b),
        forall|p: u32| a.contains(p) <==> b.contains(p),
    ensures
        a == b,
    decreases a.len(),
{
    if a.len() == 0 {
        if b.len() > 0 {
            assert(b.contains(b[0]));
            assert(a.contains(b[0]));
        }
        assert(a =~= b);
    } else {
        assert(a.contains(a[a.len() - 1]));
        assert(b.contains(a[a.len() - 1]));
        assert(b.len() > 0);
        assert(b.contains(b[b.len() - 1]));
        assert(a.contains(b[b.len() - 1]));
        let i = choose|i: int| 0 <= i < b.len() && b[i] == a[a.len() - 1];
        let j = choose|j: int| 0 <= j < a.len() && a[j] == b[b.len() - 1];
        assert(a.last() == b.last()) by {
            if i < b.len() - 1 {
                assert(b[i] < b[b.len() - 1]);
            }
            if j < a.len() - 1 {
                assert(a[j] < a[a.len() - 1]);
            }
        }
        let x = a.drop_last();
        let y = b.drop_last();
        assert forall|p: u32| x.contains(p) <==> y.contains(p) by {
            if x.contains(p) {
                let k = choose|k: int| 0 <= k < x.len() && x[k] == p;
                assert(a[k] == p);
                assert(a[k] < a[a.len() - 1]);
                assert(a.contains(p));
                let m = choose|m: int| 0 <= m < b.len() && b[m] == p;
                assert(y[m] == p);
            }
            if y.contains(p) {
                let k = choose|k: int| 0 <= k < y.len() && y[k] == p;
                assert(b[k] == p);
                assert(b[k] < b[b.len() - 1]);
                assert(b.contains(p));
                let m = choose|m: int| 0 <= m < a.len() && a[m] == p;
                assert(x[m] == p);
            }
        }
        increasing_fixed_by_contents(x, y);
        assert(a =~= x.push(a.last()));
        assert(b =~= y.push(b.last()));
    }
}

/// The first position whose page is not below `page`.
pub fn lower_bound(pages: &Vec<u32>, page: u32) -> (r: usize)
    requires
        increasing(pages@),
    ensures
        r <= pages@.len(),
        forall|i: int| 0 <= i < r ==> #[trigger] pages@[i] < page,
        forall|i: int| r <= i < pages@.len() ==> #[trigger] pages@[i] >= page,
{
    let mut low: usize = 0;
    let mut high: usize = pages.len();
    while low < high
        invariant
            low <= high <= pages@.len(),
            increasing(pages@),
            forall|i: int| 0 <= i < low ==> #[trigger] pages@[i] < page,
            forall|i: int| high <= i < pages@.len() ==> #[trigger] pages@[i] >= page,
        decreases high - low,
    {
        let mid: usize = low + (high - low) / 2;
        if pages[mid] < page {
            assert forall|i: int| 0 <= i < mid + 1 implies #[trigger] pages@[i] < page by {
                if i < mid {
                    assert(pages@[i] < pages@[mid as int]);
                }
            }
            low = mid + 1;
        } else {
            assert forall|i: int| mid <= i < pages@.len() implies #[trigger] pages@[i] >= page by {
                if mid < i {
                    assert(pages@[mid as int] < pages@[i]);
                }
            }
            high = mid;
        }
    }
    low
}

/// True when a page list holds `page`.
pub fn holds_page(pages: &Vec<u32>, page: u32) -> (r: bool)
    requires
        increasing(pages@),
    ensures
        r == pages@.contains(page),
{
    let at: usize = lower_bound(pages, page);
    if at < pages.len() && pages[at] == page {
        assert(pages@[at as int] == page);
        true
    } else {
        assert(!pages@.contains(page)) by {
            if pages@.contains(page) {
                let i = choose|i: int| 0 <= i < pages@.len() && pages@[i] == page;
                if at < i {
                    assert(pages@[at as int] < pages@[i]);
                }
            }
        }
        false
    }
}

/// Put `page` into a page list.
pub fn insert_page(pages: &mut Vec<u32>, page: u32)
    requires
        increasing(old(pages)@),
    ensures
        increasing(final(pages)@),
        forall|p: u32| #[trigger] final(pages)@.contains(p) <==> old(pages)@.contains(p) || p
            == page,
{
    let ghost before = pages@;
    let mut at: usize = pages.len();
    while at > 0 && pages[at - 1] > page
        invariant
            pages@ == before,
            at <= before.len(),
            forall|i: int| at <= i < before.len() ==> #[trigger] before[i] > page,
        decreases at,
    {
        at -= 1;
    }
    if at > 0 && pages[at - 1] == page {
        assert(before[at - 1] == page);
    } else {
        pages.insert(at, page);
        let ghost after = pages@;
        assert(after == before.insert(at as int, page));
        assert forall|i: int, j: int| 0 <= i < j < after.len() implies #[trigger] after[i]
            < #[trigger] after[j] by {
            if i < at {
                assert(after[i] == before[i]);
                if j == at {
                    assert(before[at - 1] < page);
                    if i < at - 1 {
                        assert(before[i] < before[at - 1]);
                    }
                } else if j < at {
                    assert(after[j] == before[j]);
                } else {
                    assert(after[j] == before[j - 1]);
                }
            } else {
                assert(after[j] == before[j - 1]);
                if i > at {
                    assert(after[i] == before[i - 1]);
                }
            }
        }
        assert forall|p: u32| #[trigger] after.contains(p) <==> before.contains(p) || p == page by {
            if before.contains(p) {
                let i = choose|i: int| 0 <= i < before.len() && before[i] == p;
                assert(after[if i < at { i } else { i + 1 }] == p);
            }
            assert(after[at as int] == page);
            if after.contains(p) && p != page {
                let i = choose|i: int| 0 <= i < after.len() && after[i] == p;
                assert(before[if i < at { i } else { i - 1 }] == p);
            }
        }
    }
}

/// `s` with `x` put in behind the last element whose key is not above its own.
pub open spec fn insert_by<T>(s: Seq<T>, x: T, key: spec_fn(T) -> int) -> Seq<T>
    decreases s.len(),
{
    if s.len() == 0 || key(s.last()) <= key(x) {
        s.push(x)
    } else {
        insert_by(s.drop_last(), x, key).push(s.last())
    }
}

/// `s` stably sorted by `key`.
pub open spec fn sorted_by<T>(s: Seq<T>, key: spec_fn(T) -> int) -> Seq<T>
    decreases s.len(),
{
    if s.len() == 0 {
        Seq::empty()
    } else {
        insert_by(sorted_by(s.drop_last(), key), s.last(), key)
    }
}

/// Keys never go down.
pub open spec fn in_key_order<T>(s: Seq<T>, key: spec_fn(T) -> int) -> bool {
    forall|i: int, j: int| 0 <= i < j < s.len() ==> key(#[trigger] s[i]) <= key(#[trigger] s[j])
}

/// The elements of `s` whose key is `k`, in order.
pub open spec fn with_key<T>(s: Seq<T>, key: spec_fn(T) -> int, k: int) -> Seq<T>
    decreases s.len(),
{
    if s.len() == 0 {
        Seq::empty()
    } else if key(s.last()) == k {
        with_key(s.drop_last(), key, k).push(s.last())
    } else {
        with_key(s.drop_last(), key, k)
    }
}

/// Inserting at the position a scan from the end stops at is [`insert_by`].
pub proof fn insert_by_at<T>(s: Seq<T>, x: T, key: spec_fn(T) -> int, at: int)
    requires
        0 <= at <= s.len(),
        at > 0 ==> key(s[at - 1]) <= key(x),
        forall|i: int| at <= i < s.len() ==> key(#[trigger] s[i]) > key(x),
    ensures
        insert_by(s, x, key) == s.insert(at, x),
    decreases s.len(),
{
    if at == s.len() {
        assert(s.insert(at, x) =~= s.push(x));
    } else {
        insert_by_at(s.drop_last(), x, key, at);
        assert(s.insert(at, x) =~= s.drop_last().insert(at, x).push(s.last()));
    }
}

proof fn insert_by_properties<T>(s: Seq<T>, x: T, key: spec_fn(T) -> int)
    requires
        in_key_order(s, key),
    ensures
        in_key_order(insert_by(s, x, key), key),
        insert_by(s, x, key).to_multiset() == s.to_multiset().insert(x),
        forall|k: int|
            #[trigger] with_key(insert_by(s, x, key), key, k) == (if key(x) == k {
                with_key(s, key, k).push(x)
            } else {
                with_key(s, key, k)
            }),
        insert_by(s, x, key).len() == s.len() + 1,
        forall|i: int|
            0 <= i <= s.len() && (forall|j: int| 0 <= j < s.len() ==> key(#[trigger] s[j]) <= key(
                s.last(),
            )) ==> key(#[trigger] insert_by(s, x, key)[i]) <= (if s.len() > 0 && key(s.last())
                > key(x) {
                key(s.last())
            } else {
                key(x)
            }),
    decreases s.len(),
{
    broadcast use vstd::seq_lib::group_to_multiset_ensures;

    let r = insert_by(s, x, key);
    if s.len() == 0 || key(s.last()) <= key(x) {
        assert(r.drop_last() =~= s);
        assert forall|i: int, j: int| 0 <= i < j < r.len() implies key(#[trigger] r[i]) <= key(
            #[trigger] r[j],
        ) by {
            assert(r[i] == s[i]);
            if j < s.len() {
                assert(r[j] == s[j]);
            } else if i < s.len() - 1 {
                assert(key(s[i]) <= key(s[s.len() - 1]));
            }
        }
        assert forall|k: int| #[trigger] with_key(r, key, k) == (if key(x) == k {
            with_key(s, key, k).push(x)
        } else {
            with_key(s, key, k)
        }) by {}
    } else {
        let rest = s.drop_last();
        assert(in_key_order(rest, key)) by {
            assert forall|i: int, j: int| 0 <= i < j < rest.len() implies key(#[trigger] rest[i])
                <= key(#[trigger] rest[j]) by {
                assert(rest[i] == s[i] && rest[j] == s[j]);
            }
        }
        insert_by_properties(rest, x, key);
        let inner = insert_by(rest, x, key);
        assert(r.drop_last() =~= inner);
        assert(s =~= rest.push(s.last()));
        assert(r.to_multiset() =~= s.to_multiset().insert(x));
        assert(forall|j: int|
            0 <= j < rest.len() ==> key(#[trigger] rest[j]) <= key(rest.last())) by {
            assert forall|j: int| 0 <= j < rest.len() implies key(#[trigger] rest[j]) <= key(
                rest.last(),
            ) by {
                if j < rest.len() - 1 {
                    assert(key(rest[j]) <= key(rest[rest.len() - 1]));
                }
            }
        }
        if rest.len() > 0 {
            assert(key(s[rest.len() - 1]) <= key(s[s.len() - 1]));
            assert(rest.last() == s[rest.len() - 1]);
        }
        assert forall|i: int, j: int| 0 <= i < j < r.len() implies key(#[trigger] r[i]) <= key(
            #[trigger] r[j],
        ) by {
            assert(r[i] == inner[i]);
            if j < inner.len() {
                assert(r[j] == inner[j]);
            }
        }
        assert forall|k: int| #[trigger] with_key(r, key, k) == (if key(x) == k {
            with_key(s, key, k).push(x)
        } else {
            with_key(s, key, k)
        }) by {
            assert(with_key(inner, key, k) == (if key(x) == k {
                with_key(rest, key, k).push(x)
            } else {
                with_key(rest, key, k)
            }));
        }
    }
}

/// A stable sort is in key order, holds the same elements, and keeps the order in which the
/// elements of any one key came.
pub proof fn sorted_by_is_stable<T>(s: Seq<T>, key: spec_fn(T) -> int)
    ensures
        in_key_order(sorted_by(s, key), key),
        sorted_by(s, key).to_multiset() == s.to_multiset(),
        sorted_by(s, key).len() == s.len(),
        forall|k: int| #[trigger]
            with_key(sorted_by(s, key), key, k) == with_key(s, key, k),
    decreases s.len(),
{
    broadcast use vstd::seq_lib::group_to_multiset_ensures;

    if s.len() > 0 {
        let rest = s.drop_last();
        sorted_by_is_stable(rest, key);
        insert_by_properties(sorted_by(rest, key), s.last(), key);
        assert(s =~= rest.push(s.last()));
        assert forall|k: int| #[trigger]
            with_key(sorted_by(s, key), key, k) == with_key(s, key, k) by {
            assert(with_key(sorted_by(rest, key), key, k) == with_key(rest, key, k));
        }
    } else {
        assert(s =~= Seq::empty());
    }
}

/// Where [`insert_by`] puts its element: everything before has no larger key, everything behind
/// has a larger one.
proof fn insert_by_place<T>(s: Seq<T>, x: T, key: spec_fn(T) -> int) -> (at: int)
    requires
        in_key_order(s, key),
    ensures
        0 <= at <= s.len(),
        insert_by(s, x, key) == s.insert(at, x),
        forall|i: int| 0 <= i < at ==> key(#[trigger] s[i]) <= key(x),
        forall|i: int| at <= i < s.len() ==> key(#[trigger] s[i]) > key(x),
    decreases s.len(),
{
    if s.len() == 0 || key(s.last()) <= key(x) {
        assert(s.insert(s.len() as int, x) =~= s.push(x));
        assert forall|i: int| 0 <= i < s.len() implies key(#[trigger] s[i]) <= key(x) by {
            if i < s.len() - 1 {
                assert(key(s[i]) <= key(s[s.len() - 1]));
            }
        }
        s.len() as int
    } else {
        let rest = s.drop_last();
        assert forall|i: int, j: int| 0 <= i < j < rest.len() implies key(#[trigger] rest[i])
            <= key(#[trigger] rest[j]) by {
            assert(rest[i] == s[i] && rest[j] == s[j]);
        }
        let at = insert_by_place(rest, x, key);
        assert(s.insert(at, x) =~= rest.insert(at, x).push(s.last()));
        assert forall|i: int| 0 <= i < at implies key(#[trigger] s[i]) <= key(x) by {
            assert(rest[i] == s[i]);
        }
        assert forall|i: int| at <= i < s.len() implies key(#[trigger] s[i]) > key(x) by {
            if i < rest.len() {
                assert(rest[i] == s[i]);
            }
        }
        at
    }
}

/// Where the elements of a stable sort came from: each position of the sorted list has a
/// position of the original behind it, every original position is behind exactly one, smaller
/// keys come first, and equal keys come in their original order.
pub proof fn sorted_by_rearranges<T>(s: Seq<T>, key: spec_fn(T) -> int) -> (from: Seq<int>)
    ensures
        from.len() == s.len(),
        sorted_by(s, key).len() == s.len(),
        forall|i: int|
            0 <= i < s.len() ==> 0 <= #[trigger] from[i] < s.len() && sorted_by(s, key)[i]
                == s[from[i]],
        forall|n: int| 0 <= n < s.len() ==> from.contains(n),
        forall|i: int, j: int|
            0 <= i < j < s.len() ==> key(s[#[trigger] from[i]]) < key(s[#[trigger] from[j]]) || (
            key(s[from[i]]) == key(s[from[j]]) && from[i] < from[j]),
    decreases s.len(),
{
    if s.len() == 0 {
        Seq::empty()
    } else {
        let rest = s.drop_last();
        let x = s.last();
        let n = rest.len() as int;
        let before = sorted_by_rearranges(rest, key);
        sorted_by_is_stable(rest, key);
        let at = insert_by_place(sorted_by(rest, key), x, key);
        let from = before.insert(at, n);
        let sorted = sorted_by(s, key);
        assert forall|i: int| 0 <= i < s.len() implies 0 <= #[trigger] from[i] < s.len()
            && sorted[i] == s[from[i]] by {
            if i < at {
                assert(from[i] == before[i]);
            } else if i > at {
                assert(from[i] == before[i - 1]);
            }
        }
        assert forall|m: int| 0 <= m < s.len() implies from.contains(m) by {
            if m == n {
                assert(from[at] == m);
            } else {
                assert(before.contains(m));
                let i = choose|i: int| 0 <= i < before.len() && before[i] == m;
                assert(from[if i < at { i } else { i + 1 }] == m);
            }
        }
        assert forall|i: int, j: int| 0 <= i < j < s.len() implies key(s[#[trigger] from[i]])
            < key(s[#[trigger] from[j]]) || (key(s[from[i]]) == key(s[from[j]]) && from[i]
            < from[j]) by {
            let a = if i < at { i } else { i - 1 };
            let b = if j < at { j } else { j - 1 };
            if i == at {
                assert(from[j] == before[b]);
                assert(sorted_by(rest, key)[b] == rest[before[b]]);
            } else if j == at {
                assert(from[i] == before[a]);
                assert(sorted_by(rest, key)[a] == rest[before[a]]);
            } else {
                assert(from[i] == before[a] && from[j] == before[b]);
                assert(rest[before[a]] == s[before[a]] && rest[before[b]] == s[before[b]]);
            }
        }
        from
    }
}

proof fn one_with_its_key<T>(s: Seq<T>, key: spec_fn(T) -> int, i: int)
    requires
        0 <= i < s.len(),
    ensures
        with_key(s, key, key(s[i])).len() >= 1,
        with_key(s, key, key(s[i])).contains(s[i]),
    decreases s.len(),
{
    let k = key(s[i]);
    let before = with_key(s.drop_last(), key, k);
    if i == s.len() - 1 {
        assert(with_key(s, key, k)[before.len() as int] == s[i]);
    } else {
        one_with_its_key(s.drop_last(), key, i);
        let at = choose|at: int| 0 <= at < before.len() && before[at] == s[i];
        assert(with_key(s, key, k)[at] == s[i]);
    }
}

proof fn two_with_one_key<T>(s: Seq<T>, key: spec_fn(T) -> int, i: int, j: int)
    requires
        0 <= i < j < s.len(),
        key(s[i]) == key(s[j]),
    ensures
        with_key(s, key, key(s[i])).len() >= 2,
    decreases s.len(),
{
    if j == s.len() - 1 {
        one_with_its_key(s.drop_last(), key, i);
    } else {
        two_with_one_key(s.drop_last(), key, i, j);
    }
}

proof fn some_have_the_key<T>(s: Seq<T>, key: spec_fn(T) -> int, k: int)
    requires
        with_key(s, key, k).len() > 0,
    ensures
        exists|i: int| 0 <= i < s.len() && key(#[trigger] s[i]) == k,
    decreases s.len(),
{
    if key(s.last()) == k {
        assert(key(s[s.len() - 1]) == k);
    } else {
        some_have_the_key(s.drop_last(), key, k);
        let i = choose|i: int|
            0 <= i < s.drop_last().len() && key(#[trigger] s.drop_last()[i]) == k;
        assert(key(s[i]) == k);
    }
}

/// Picking by key from two lists in a row is picking from each.
pub proof fn with_key_of_both<T>(a: Seq<T>, b: Seq<T>, key: spec_fn(T) -> int, k: int)
    ensures
        with_key(a + b, key, k) == with_key(a, key, k) + with_key(b, key, k),
    decreases b.len(),
{
    if b.len() == 0 {
        assert(a + b =~= a);
    } else {
        assert((a + b).drop_last() =~= a + b.drop_last());
        with_key_of_both(a, b.drop_last(), key, k);
        if key(b.last()) == k {
            assert(with_key(a + b, key, k) =~= with_key(a, key, k) + with_key(b, key, k));
        }
    }
}

proof fn keys_start_in_place<T>(s: Seq<T>, key: spec_fn(T) -> int, n: nat, i: int)
    requires
        in_key_order(s, key),
        forall|j: int| 0 <= j < s.len() ==> 0 <= key(#[trigger] s[j]) < n,
        forall|k: int| 0 <= k < n ==> (#[trigger] with_key(s, key, k)).len() == 1,
        0 <= i < s.len(),
    ensures
        forall|j: int| 0 <= j <= i ==> key(#[trigger] s[j]) == j,
    decreases i,
{
    if i > 0 {
        keys_start_in_place(s, key, n, i - 1);
        if key(s[i]) == key(s[i - 1]) {
            two_with_one_key(s, key, i - 1, i);
        }
    }
    if key(s[i]) > i {
        assert(with_key(s, key, i).len() == 1);
        some_have_the_key(s, key, i);
        let at = choose|at: int| 0 <= at < s.len() && key(#[trigger] s[at]) == i;
        if at > i {
            assert(key(s[i]) <= key(s[at]));
        }
    }
}

/// Elements in key order that have each of the keys `0..n` once, and no other, stand at the
/// position of their key.
pub proof fn keys_in_place<T>(s: Seq<T>, key: spec_fn(T) -> int, n: nat)
    requires
        in_key_order(s, key),
        forall|j: int| 0 <= j < s.len() ==> 0 <= key(#[trigger] s[j]) < n,
        forall|k: int| 0 <= k < n ==> (#[trigger] with_key(s, key, k)).len() == 1,
    ensures
        s.len() == n,
        forall|j: int| 0 <= j < s.len() ==> key(#[trigger] s[j]) == j,
        forall|k: int| 0 <= k < n ==> (#[trigger] with_key(s, key, k))[0] == s[k],
{
    if s.len() > 0 {
        keys_start_in_place(s, key, n, s.len() - 1);
        assert(key(s[s.len() - 1]) == s.len() - 1);
    }
    if s.len() < n {
        assert(with_key(s, key, s.len() as int).len() == 1);
        some_have_the_key(s, key, s.len() as int);
    }
    assert forall|k: int| 0 <= k < n implies (#[trigger] with_key(s, key, k))[0] == s[k] by {
        assert(key(s[k]) == k);
        one_with_its_key(s, key, k);
    }
}

} // verus!
