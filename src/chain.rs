//! The sorted chain of vacant slots that a depot threads through its own
//! storage, and the algorithms that splice slots into and out of it.
//!
//! A vacant slot's link names the nearest vacant slot below it and the
//! nearest vacant slot above it; the cached bounds name the lowest and the
//! highest vacant slot. Both are fully determined by which slots are
//! vacant, which `chain_wf` states.
use crate::link::{EmptyBounds, Link};
use crate::space::Space;
use vstd::prelude::*;

verus! {

/// Slot `i` exists and is vacant.
pub open spec fn vacant<T>(s: Seq<Space<T>>, i: int) -> bool {
    0 <= i < s.len() && s[i] is Empty
}

/// The link stored in slot `i` (meaningful when the slot is vacant).
pub open spec fn link_of<T>(s: Seq<Space<T>>, i: int) -> Link {
    s[i]->Empty_0
}

/// No slot strictly between `lo` and `hi` is vacant.
pub open spec fn none_vacant_between<T>(s: Seq<Space<T>>, lo: int, hi: int) -> bool {
    forall|k: int| lo < k < hi ==> !#[trigger] vacant(s, k)
}

/// `next` names the nearest vacant slot above `i`, or is absent when there
/// is none.
pub open spec fn next_ok<T>(s: Seq<Space<T>>, i: int, next: Option<usize>) -> bool {
    match next {
        Some(j) => i < j && vacant(s, j as int) && none_vacant_between(s, i, j as int),
        None => none_vacant_between(s, i, s.len() as int),
    }
}

/// `prev` names the nearest vacant slot below `i`, or is absent when there
/// is none.
pub open spec fn prev_ok<T>(s: Seq<Space<T>>, i: int, prev: Option<usize>) -> bool {
    match prev {
        Some(j) => j < i && vacant(s, j as int) && none_vacant_between(s, j as int, i),
        None => none_vacant_between(s, -1, i),
    }
}

/// Every vacant slot is linked to its nearest vacant neighbours.
pub open spec fn links_wf<T>(s: Seq<Space<T>>) -> bool {
    forall|i: int|
        vacant(s, i) ==> prev_ok(s, i, #[trigger] link_of(s, i).prev) && next_ok(
            s,
            i,
            link_of(s, i).next,
        )
}

/// The bounds are absent exactly when no slot is vacant, and otherwise
/// name the lowest and the highest vacant slot.
pub open spec fn bounds_wf<T>(s: Seq<Space<T>>, b: Option<EmptyBounds>) -> bool {
    match b {
        None => none_vacant_between(s, -1, s.len() as int),
        Some(eb) => {
            &&& vacant(s, eb.first as int)
            &&& vacant(s, eb.last as int)
            &&& none_vacant_between(s, -1, eb.first as int)
            &&& none_vacant_between(s, eb.last as int, s.len() as int)
        },
    }
}

/// The chain of vacant slots and its bounds agree with the slots.
pub open spec fn chain_wf<T>(s: Seq<Space<T>>, b: Option<EmptyBounds>) -> bool {
    links_wf(s) && bounds_wf(s, b)
}

/// What the slots hold, with links forgotten: `None` for a vacant slot.
pub open spec fn values<T>(s: Seq<Space<T>>) -> Seq<Option<T>> {
    s.map_values(|sp: Space<T>| sp.value())
}

/// Every slot of `s` in `[lo, hi)` is full.
pub open spec fn all_full<T>(s: Seq<Space<T>>, lo: int, hi: int) -> bool {
    forall|k: int| lo <= k < hi ==> (#[trigger] s[k]) is Full
}

/// The index (counted from `offset`) of the highest vacant slot of `slice`.
#[must_use]
pub fn find_last_empty_index<T>(slice: &[Space<T>], offset: usize) -> (r: Option<usize>)
    requires
        offset + slice@.len() <= usize::MAX,
    ensures
        match r {
            Some(i) => {
                &&& offset <= i < offset + slice@.len()
                &&& slice@[i - offset] is Empty
                &&& all_full(slice@, i - offset + 1, slice@.len() as int)
            },
            None => all_full(slice@, 0, slice@.len() as int),
        },
{
    let mut i: usize = slice.len();
    while i > 0
        invariant
            i <= slice@.len(),
            offset + slice@.len() <= usize::MAX,
            all_full(slice@, i as int, slice@.len() as int),
        decreases i,
    {
        i = i - 1;
        if slice[i].is_empty() {
            return Some(i + offset);
        }
    }
    None
}

/// The index (counted from `offset`) of the lowest vacant slot of `slice`.
#[must_use]
pub fn find_first_empty_index<T>(slice: &[Space<T>], offset: usize) -> (r: Option<usize>)
    requires
        offset + slice@.len() <= usize::MAX,
    ensures
        match r {
            Some(i) => {
                &&& offset <= i < offset + slice@.len()
                &&& slice@[i - offset] is Empty
                &&& all_full(slice@, 0, i - offset)
            },
            None => all_full(slice@, 0, slice@.len() as int),
        },
{
    let mut i: usize = 0;
    while i < slice.len()
        invariant
            i <= slice@.len(),
            offset + slice@.len() <= usize::MAX,
            all_full(slice@, 0, i as int),
        decreases slice@.len() - i,
    {
        if slice[i].is_empty() {
            return Some(i + offset);
        }
        i = i + 1;
    }
    None
}

/// A link for a slot placed just above the highest vacant slot of `slice`
/// (a window of a larger storage that starts at `offset`): that slot
/// becomes its predecessor and hands over its successor.
#[must_use]
pub fn create_link_from_last_empty<T>(slice: &[Space<T>], offset: usize) -> (r: Option<Link>)
    requires
        offset + slice@.len() <= usize::MAX,
    ensures
        match r {
            Some(link) => {
                &&& link.prev is Some
                &&& offset <= link.prev->0 < offset + slice@.len()
                &&& slice@[link.prev->0 - offset] is Empty
                &&& link.next == slice@[link.prev->0 - offset]->Empty_0.next
                &&& all_full(slice@, link.prev->0 - offset + 1, slice@.len() as int)
            },
            None => all_full(slice@, 0, slice@.len() as int),
        },
{
    match find_last_empty_index(slice, offset) {
        Some(last_empty_index) => {
            let found = slice[last_empty_index - offset].expect_empty();
            Some(Link::new(Some(last_empty_index), found.next))
        },
        None => None,
    }
}

/// A link for a slot placed just below the lowest vacant slot of `slice`
/// (a window of a larger storage that starts at `offset`): that slot
/// becomes its successor and hands over its predecessor.
#[must_use]
pub fn create_link_from_first_empty<T>(slice: &[Space<T>], offset: usize) -> (r: Option<Link>)
    requires
        offset + slice@.len() <= usize::MAX,
    ensures
        match r {
            Some(link) => {
                &&& link.next is Some
                &&& offset <= link.next->0 < offset + slice@.len()
                &&& slice@[link.next->0 - offset] is Empty
                &&& link.prev == slice@[link.next->0 - offset]->Empty_0.prev
                &&& all_full(slice@, 0, link.next->0 - offset)
            },
            None => all_full(slice@, 0, slice@.len() as int),
        },
{
    match find_first_empty_index(slice, offset) {
        Some(first_empty_index) => {
            let found = slice[first_empty_index - offset].expect_empty();
            Some(Link::new(found.prev, Some(first_empty_index)))
        },
        None => None,
    }
}

/// The link that a full slot `index` takes when it becomes vacant: its
/// nearest vacant neighbours below and above.
///
/// At either end of the chain this is immediate. Inside the chain the
/// nearer of the two windows `[first, index)` and `(index, last]` is
/// searched first, the other one only when the first holds no vacant slot.
#[must_use]
pub fn create_link<T>(
    slice: &[Space<T>],
    empty_bounds: &Option<EmptyBounds>,
    index: usize,
) -> (r: Link)
    requires
        chain_wf(slice@, *empty_bounds),
        index < slice@.len(),
        slice@[index as int] is Full,
    ensures
        prev_ok(slice@, index as int, r.prev),
        next_ok(slice@, index as int, r.next),
{
    let s = Ghost(slice@);
    match empty_bounds {
        None => Link::new_detached(),
        Some(bounds) => {
            if index <= bounds.first {
                Link::new_start(bounds.first)
            } else if index >= bounds.last {
                Link::new_end(bounds.last)
            } else {
                let first = bounds.first;
                let last = bounds.last;
                let span = last - first;
                let next_start = index + 1;
                let len = slice.len();
                assert(vacant(s@, last as int));
                assert(last < len);
                let prev_window = &slice[first..index];
                let next_window = &slice[next_start..last + 1];
                assert(prev_window@ == s@.subrange(first as int, index as int));
                assert(next_window@ == s@.subrange(next_start as int, last + 1));
                if index < span / 2 + first {
                    match create_link_from_last_empty(prev_window, first) {
                        Some(link) => {
                            proof {
                                lemma_link_from_below(s@, *bounds, index as int, link);
                            }
                            link
                        },
                        None => match create_link_from_first_empty(next_window, next_start) {
                            Some(link) => {
                                proof {
                                    lemma_link_from_above(s@, *bounds, index as int, link);
                                }
                                link
                            },
                            None => {
                                proof {
                                    assert(prev_window@[0] == s@[first as int]);
                                }
                                Link::new_detached()
                            },
                        },
                    }
                } else {
                    match create_link_from_first_empty(next_window, next_start) {
                        Some(link) => {
                            proof {
                                lemma_link_from_above(s@, *bounds, index as int, link);
                            }
                            link
                        },
                        None => match create_link_from_last_empty(prev_window, first) {
                            Some(link) => {
                                proof {
                                    lemma_link_from_below(s@, *bounds, index as int, link);
                                }
                                link
                            },
                            None => {
                                proof {
                                    assert(prev_window@[0] == s@[first as int]);
                                }
                                Link::new_detached()
                            },
                        },
                    }
                }
            }
        },
    }
}

/// Facts about the window `[a, b)` of `s` hold of `s` itself.
proof fn lemma_window_full<T>(s: Seq<Space<T>>, a: int, b: int, lo: int, hi: int)
    requires
        0 <= a <= b <= s.len(),
        all_full(s.subrange(a, b), lo, hi),
        0 <= lo,
        hi <= b - a,
    ensures
        all_full(s, a + lo, a + hi),
{
    assert forall|k: int| a + lo <= k < a + hi implies (#[trigger] s[k]) is Full by {
        assert(s.subrange(a, b)[k - a] == s[k]);
    }
}

/// A link built from the highest vacant slot `p` of the window below a
/// full slot `index` names the vacant neighbours of `index`.
proof fn lemma_link_from_below<T>(s: Seq<Space<T>>, b: EmptyBounds, index: int, link: Link)
    requires
        chain_wf(s, Some(b)),
        b.first < index < b.last,
        s[index] is Full,
        link.prev is Some,
        b.first <= link.prev->0 < index,
        s.subrange(b.first as int, index)[link.prev->0 - b.first] is Empty,
        link.next == s.subrange(b.first as int, index)[link.prev->0 - b.first]->Empty_0.next,
        all_full(s.subrange(b.first as int, index), link.prev->0 - b.first + 1, index - b.first),
    ensures
        prev_ok(s, index, link.prev),
        next_ok(s, index, link.next),
{
    let p = link.prev->0 as int;
    assert(s.subrange(b.first as int, index)[p - b.first] == s[p]);
    lemma_window_full(s, b.first as int, index, p - b.first + 1, index - b.first);
    assert(link_of(s, p) == s[p]->Empty_0);
    assert(vacant(s, p));
    assert(next_ok(s, p, link_of(s, p).next));
    assert(!vacant(s, index));
    if let Some(j) = link.next {
        assert(vacant(s, j as int));
        assert(index < j);
    }
}

/// A link built from the lowest vacant slot `q` of the window above a full
/// slot `index` names the vacant neighbours of `index`.
proof fn lemma_link_from_above<T>(s: Seq<Space<T>>, b: EmptyBounds, index: int, link: Link)
    requires
        chain_wf(s, Some(b)),
        b.first < index < b.last,
        s[index] is Full,
        link.next is Some,
        index + 1 <= link.next->0 <= b.last,
        s.subrange(index + 1, b.last + 1)[link.next->0 - (index + 1)] is Empty,
        link.prev == s.subrange(index + 1, b.last + 1)[link.next->0 - (index + 1)]->Empty_0.prev,
        all_full(s.subrange(index + 1, b.last + 1), 0, link.next->0 - (index + 1)),
    ensures
        prev_ok(s, index, link.prev),
        next_ok(s, index, link.next),
{
    let q = link.next->0 as int;
    assert(s.subrange(index + 1, b.last + 1)[q - (index + 1)] == s[q]);
    lemma_window_full(s, index + 1, b.last + 1, 0, q - (index + 1));
    assert(link_of(s, q) == s[q]->Empty_0);
    assert(vacant(s, q));
    assert(prev_ok(s, q, link_of(s, q).prev));
    assert(!vacant(s, index));
    if let Some(j) = link.prev {
        assert(vacant(s, j as int));
        assert(j < index);
    }
}

/// `o` names index `k`.
pub open spec fn names(o: Option<usize>, k: int) -> bool {
    o is Some && o->0 == k
}

/// Vacating slot `c` with link `cl`, and pointing its neighbours at it,
/// keeps every link naming the nearest vacant neighbours.
proof fn lemma_splice_in<T>(s0: Seq<Space<T>>, s2: Seq<Space<T>>, c: usize, cl: Link)
    requires
        links_wf(s0),
        0 <= c < s0.len(),
        s0[c as int] is Full,
        prev_ok(s0, c as int, cl.prev),
        next_ok(s0, c as int, cl.next),
        s2.len() == s0.len(),
        s2[c as int] == Space::<T>::Empty(cl),
        forall|k: int| 0 <= k < s0.len() && k != c ==> (s2[k] is Empty) == (s0[k] is Empty),
        forall|k: int|
            vacant(s0, k) && !names(cl.prev, k) && !names(cl.next, k) ==> link_of(s2, k)
                == link_of(s0, k),
        cl.prev is Some ==> link_of(s2, cl.prev->0 as int) == (Link {
            prev: link_of(s0, cl.prev->0 as int).prev,
            next: Some(c),
        }),
        cl.next is Some ==> link_of(s2, cl.next->0 as int) == (Link {
            prev: Some(c),
            next: link_of(s0, cl.next->0 as int).next,
        }),
    ensures
        links_wf(s2),
{
    assert forall|k: int| #[trigger] vacant(s2, k) == (vacant(s0, k) || k == c) by {
        if 0 <= k < s0.len() && k != c {
        }
    }
    assert forall|i: int| vacant(s2, i) implies prev_ok(s2, i, #[trigger] link_of(s2, i).prev)
        && next_ok(s2, i, link_of(s2, i).next) by {
        if i == c {
            assert(link_of(s2, c as int) == cl);
            assert(prev_ok(s2, i, link_of(s2, i).prev));
            assert(next_ok(s2, i, link_of(s2, i).next));
        } else {
            assert(vacant(s0, i));
            let l = link_of(s0, i);
            assert(prev_ok(s0, i, l.prev) && next_ok(s0, i, l.next));
            if names(cl.prev, i) {
                assert(link_of(s2, i).prev == l.prev);
                assert(prev_ok(s2, i, link_of(s2, i).prev));
                assert(next_ok(s2, i, link_of(s2, i).next));
            } else if names(cl.next, i) {
                assert(link_of(s2, i).next == l.next);
                assert(prev_ok(s2, i, link_of(s2, i).prev));
                assert(next_ok(s2, i, link_of(s2, i).next));
            } else if c < i {
                assert(cl.next is Some);
                let n = cl.next->0 as int;
                assert(vacant(s0, n));
                assert(n < i);
                assert(l.prev is Some);
                let j = l.prev->0 as int;
                assert(n <= j);
            } else {
                assert(cl.prev is Some);
                let p = cl.prev->0 as int;
                assert(vacant(s0, p));
                assert(i < p);
                assert(l.next is Some);
                let j = l.next->0 as int;
                assert(j <= p);
            }
        }
    }
}

/// Filling vacant slot `c`, whose link is `cl`, and pointing its
/// neighbours at each other, keeps every link naming the nearest vacant
/// neighbours.
proof fn lemma_splice_out<T>(s0: Seq<Space<T>>, s2: Seq<Space<T>>, c: int, cl: Link)
    requires
        links_wf(s0),
        0 <= c < s0.len(),
        s0[c] == Space::<T>::Empty(cl),
        s2.len() == s0.len(),
        s2[c] is Full,
        forall|k: int| 0 <= k < s0.len() && k != c ==> (s2[k] is Empty) == (s0[k] is Empty),
        forall|k: int|
            vacant(s0, k) && k != c && !names(cl.prev, k) && !names(cl.next, k) ==> link_of(
                s2,
                k,
            ) == link_of(s0, k),
        cl.prev is Some ==> link_of(s2, cl.prev->0 as int) == (Link {
            prev: link_of(s0, cl.prev->0 as int).prev,
            next: cl.next,
        }),
        cl.next is Some ==> link_of(s2, cl.next->0 as int) == (Link {
            prev: cl.prev,
            next: link_of(s0, cl.next->0 as int).next,
        }),
    ensures
        links_wf(s2),
{
    assert(link_of(s0, c) == cl);
    assert(vacant(s0, c));
    assert(prev_ok(s0, c, cl.prev) && next_ok(s0, c, cl.next));
    assert forall|k: int| #[trigger] vacant(s2, k) == (vacant(s0, k) && k != c) by {
        if 0 <= k < s0.len() && k != c {
        }
    }
    assert forall|i: int| vacant(s2, i) implies prev_ok(s2, i, #[trigger] link_of(s2, i).prev)
        && next_ok(s2, i, link_of(s2, i).next) by {
        assert(vacant(s0, i));
        let l = link_of(s0, i);
        assert(prev_ok(s0, i, l.prev) && next_ok(s0, i, l.next));
        if names(cl.prev, i) {
            assert(link_of(s2, i).prev == l.prev);
            if cl.next is Some {
                let n = cl.next->0 as int;
                assert(vacant(s0, n));
                assert(prev_ok(s0, n, link_of(s0, n).prev));
            }
        } else if names(cl.next, i) {
            assert(link_of(s2, i).next == l.next);
            if cl.prev is Some {
                let p = cl.prev->0 as int;
                assert(vacant(s0, p));
                assert(next_ok(s0, p, link_of(s0, p).next));
            }
        } else if c < i {
            assert(l.prev is Some);
            let j = l.prev->0 as int;
            assert(c <= j);
            if j == c {
                assert(names(cl.next, i));
            }
        } else {
            assert(l.next is Some);
            let j = l.next->0 as int;
            assert(j <= c);
            if j == c {
                assert(names(cl.prev, i));
            }
        }
    }
}

/// Points the vacant neighbours named by `center_link` at slot
/// `center_index`, which is about to become vacant with that link, and
/// widens the bounds when the slot becomes the new head or tail.
pub fn split_neighboring_links<T>(
    slice: &mut [Space<T>],
    empty_bounds: &mut Option<EmptyBounds>,
    center_index: usize,
    center_link: &Link,
)
    requires
        chain_wf(old(slice)@, *old(empty_bounds)),
        center_index < old(slice)@.len(),
        old(slice)@[center_index as int] is Full,
        prev_ok(old(slice)@, center_index as int, center_link.prev),
        next_ok(old(slice)@, center_index as int, center_link.next),
    ensures
        final(slice)@.len() == old(slice)@.len(),
        values(final(slice)@) == values(old(slice)@),
        chain_wf(
            final(slice)@.update(center_index as int, Space::Empty(*center_link)),
            *final(empty_bounds),
        ),
{
    let ghost s0 = slice@;
    match *empty_bounds {
        None => {
            *empty_bounds = Some(EmptyBounds::new_single(center_index));
        },
        Some(bounds) => {
            if let Some(prev_index) = center_link.prev {
                let prev = *slice[prev_index].expect_empty();
                slice[prev_index] = Space::Empty(Link::new(prev.prev, Some(center_index)));
            }
            if let Some(next_index) = center_link.next {
                let next = *slice[next_index].expect_empty();
                slice[next_index] = Space::Empty(Link::new(Some(center_index), next.next));
            }
            let first = if center_link.prev.is_none() {
                center_index
            } else {
                bounds.first
            };
            let last = if center_link.next.is_none() {
                center_index
            } else {
                bounds.last
            };
            *empty_bounds = Some(EmptyBounds::new(first, last));
        },
    }
    proof {
        let s1 = slice@;
        let s2 = s1.update(center_index as int, Space::Empty(*center_link));
        assert(values(s1) =~= values(s0));
        lemma_splice_in(s0, s2, center_index, *center_link);
        assert forall|k: int| #[trigger] vacant(s2, k) == (vacant(s0, k) || k == center_index) by {
        }
    }
}

/// Points the vacant neighbours named by `center_link`, the link that a
/// slot held until it was filled, at each other, and narrows the bounds
/// when that slot was the head or the tail of the chain.
pub fn join_neighboring_links<T>(
    slice: &mut [Space<T>],
    empty_bounds: &mut Option<EmptyBounds>,
    center_link: Link,
    Ghost(center_index): Ghost<int>,
)
    requires
        0 <= center_index < old(slice)@.len(),
        old(slice)@[center_index] is Full,
        chain_wf(old(slice)@.update(center_index, Space::Empty(center_link)), *old(empty_bounds)),
    ensures
        final(slice)@.len() == old(slice)@.len(),
        values(final(slice)@) == values(old(slice)@),
        chain_wf(final(slice)@, *final(empty_bounds)),
{
    let ghost s0 = slice@.update(center_index, Space::Empty(center_link));
    proof {
        assert(vacant(s0, center_index));
        assert(link_of(s0, center_index) == center_link);
    }
    if let Some(prev_index) = center_link.prev {
        proof {
            assert(vacant(s0, prev_index as int));
        }
        let prev = *slice[prev_index].expect_empty();
        slice[prev_index] = Space::Empty(Link::new(prev.prev, center_link.next));
    }
    if let Some(next_index) = center_link.next {
        proof {
            assert(vacant(s0, next_index as int));
        }
        let next = *slice[next_index].expect_empty();
        slice[next_index] = Space::Empty(Link::new(center_link.prev, next.next));
    }
    if let Some(bounds) = *empty_bounds {
        *empty_bounds = match (center_link.prev, center_link.next) {
            (None, None) => None,
            (None, Some(next_index)) => Some(EmptyBounds::new(next_index, bounds.last)),
            (Some(prev_index), None) => Some(EmptyBounds::new(bounds.first, prev_index)),
            (Some(_), Some(_)) => Some(bounds),
        };
    }
    proof {
        let s2 = slice@;
        lemma_splice_out(s0, s2, center_index, center_link);
        assert(values(s2) =~= values(old(slice)@));
        assert forall|k: int| #[trigger] vacant(s2, k) == (vacant(s0, k) && k != center_index) by {
        }
    }
}

/// Stores `value` in slot `index`. A vacant slot leaves the chain of
/// vacant slots; a full one has its value replaced.
pub fn put_value_in_slice<T>(
    slice: &mut [Space<T>],
    empty_bounds: &mut Option<EmptyBounds>,
    index: usize,
    value: T,
)
    requires
        chain_wf(old(slice)@, *old(empty_bounds)),
        index < old(slice)@.len(),
    ensures
        final(slice)@.len() == old(slice)@.len(),
        values(final(slice)@) == values(old(slice)@).update(index as int, Some(value)),
        chain_wf(final(slice)@, *final(empty_bounds)),
{
    let ghost s0 = slice@;
    if slice[index].is_empty() {
        let old_link = *slice[index].expect_empty();
        slice[index] = Space::Full(value);
        proof {
            assert(slice@.update(index as int, Space::Empty(old_link)) =~= s0);
        }
        join_neighboring_links(slice, empty_bounds, old_link, Ghost(index as int));
        proof {
            assert(values(s0.update(index as int, Space::Full(value))) =~= values(s0).update(
                index as int,
                Some(value),
            ));
        }
    } else {
        slice[index] = Space::Full(value);
        proof {
            let s1 = slice@;
            assert(values(s1) =~= values(s0).update(index as int, Some(value)));
            assert forall|k: int| #[trigger] vacant(s1, k) == vacant(s0, k) by {
            }
            assert forall|i: int| vacant(s1, i) implies #[trigger] link_of(s1, i) == link_of(
                s0,
                i,
            ) by {
            }
        }
    }
}

/// Makes slot `index` vacant, splicing it into the chain of vacant slots
/// between its nearest vacant neighbours. A slot that is already vacant is
/// left as it is.
pub fn delete_value_in_slice<T>(
    slice: &mut [Space<T>],
    empty_bounds: &mut Option<EmptyBounds>,
    index: usize,
)
    requires
        chain_wf(old(slice)@, *old(empty_bounds)),
        index < old(slice)@.len(),
    ensures
        final(slice)@.len() == old(slice)@.len(),
        values(final(slice)@) == values(old(slice)@).update(index as int, None),
        chain_wf(final(slice)@, *final(empty_bounds)),
        old(slice)@[index as int] is Empty ==> final(slice)@ == old(slice)@ && *final(empty_bounds)
            == *old(empty_bounds),
{
    let ghost s0 = slice@;
    if slice[index].is_full() {
        let link = create_link(slice, empty_bounds, index);
        split_neighboring_links(slice, empty_bounds, index, &link);
        slice[index] = Space::Empty(link);
        proof {
            let s1 = slice@;
            assert(values(s1) =~= values(s0).update(index as int, None));
        }
    } else {
        proof {
            assert(values(s0) =~= values(s0).update(index as int, None));
        }
    }
}

/// The indices met by following `next` links from slot `i`, taking at most
/// `fuel` steps.
pub open spec fn walk<T>(s: Seq<Space<T>>, i: int, fuel: nat) -> Seq<int>
    decreases fuel,
{
    if fuel == 0 || !vacant(s, i) {
        Seq::empty()
    } else {
        match link_of(s, i).next {
            None => seq![i],
            Some(j) => seq![i] + walk(s, j as int, (fuel - 1) as nat),
        }
    }
}

proof fn lemma_walk<T>(s: Seq<Space<T>>, i: int, fuel: nat)
    requires
        links_wf(s),
        vacant(s, i),
        fuel >= s.len() - i,
    ensures
        walk(s, i, fuel).len() >= 1,
        walk(s, i, fuel)[0] == i,
        forall|a: int, b: int|
            0 <= a < b < walk(s, i, fuel).len() ==> walk(s, i, fuel)[a] < walk(s, i, fuel)[b],
        forall|a: int| 0 <= a < walk(s, i, fuel).len() ==> vacant(s, #[trigger] walk(s, i, fuel)[a]),
        forall|k: int| i <= k && vacant(s, k) ==> walk(s, i, fuel).contains(k),
        none_vacant_between(s, walk(s, i, fuel).last(), s.len() as int),
    decreases fuel,
{
    let w = walk(s, i, fuel);
    assert(prev_ok(s, i, link_of(s, i).prev) && next_ok(s, i, link_of(s, i).next));
    match link_of(s, i).next {
        None => {
            assert(w =~= seq![i]);
            assert forall|k: int| i <= k && vacant(s, k) implies w.contains(k) by {
                assert(w[0] == k);
            }
        },
        Some(j) => {
            let j = j as int;
            let rest = walk(s, j, (fuel - 1) as nat);
            lemma_walk(s, j, (fuel - 1) as nat);
            assert(w =~= seq![i] + rest);
            assert forall|a: int, b: int| 0 <= a < b < w.len() implies w[a] < w[b] by {
                if a > 0 {
                    assert(w[a] == rest[a - 1] && w[b] == rest[b - 1]);
                } else {
                    assert(w[b] == rest[b - 1]);
                    assert(rest[0] <= rest[b - 1]);
                }
            }
            assert forall|a: int| 0 <= a < w.len() implies vacant(s, #[trigger] w[a]) by {
                if a > 0 {
                    assert(w[a] == rest[a - 1]);
                }
            }
            assert forall|k: int| i <= k && vacant(s, k) implies w.contains(k) by {
                if k == i {
                    assert(w[0] == k);
                } else {
                    assert(j <= k);
                    let a = choose|a: int| 0 <= a < rest.len() && rest[a] == k;
                    assert(w[a + 1] == k);
                }
            }
            assert(w.last() == rest.last());
        },
    }
}

/// Following the `next` links from the head of a well-formed chain visits
/// every vacant slot, each once, in strictly increasing order, and stops at
/// the tail.
pub proof fn law_chain_sorted<T>(s: Seq<Space<T>>, b: EmptyBounds)
    requires
        chain_wf(s, Some(b)),
    ensures
        ({
            let w = walk(s, b.first as int, s.len());
            &&& forall|x: int, y: int| 0 <= x < y < w.len() ==> w[x] < w[y]
            &&& forall|x: int| 0 <= x < w.len() ==> vacant(s, #[trigger] w[x])
            &&& forall|k: int| vacant(s, k) ==> w.contains(k)
            &&& w.len() >= 1
            &&& w[0] == b.first
            &&& w.last() == b.last
        }),
{
    lemma_walk(s, b.first as int, s.len());
    let w = walk(s, b.first as int, s.len());
    assert(vacant(s, w.last()));
    assert forall|k: int| vacant(s, k) implies w.contains(k) by {
        assert(b.first <= k);
    }
}

} // verus!
