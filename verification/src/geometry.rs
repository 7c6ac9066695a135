use crate::date::{Day, MAX_DAY};
use crate::model::{Event, EventId, EventView};
use crate::time::{add_minutes, local_at, local_at_result, Moment, SAFE_MAX_SECS, SAFE_MIN_SECS};
use vstd::prelude::*;

verus! {

/// Where an event is drawn in a day column: its horizontal slot among `slot_count` equal slots,
/// and its rows from `top` on.
#[derive(Debug)]
pub struct EventLayout {
    pub event_id: EventId,
    pub x_slot: usize,
    pub slot_count: usize,
    pub top: u16,
    pub height: u16,
}

/// The plain-value form of a layout entry.
pub struct LayoutView {
    pub event_id: Seq<char>,
    pub x_slot: int,
    pub slot_count: int,
    pub top: int,
    pub height: int,
}

impl View for EventLayout {
    type V = LayoutView;

    open spec fn view(&self) -> LayoutView {
        LayoutView {
            event_id: self.event_id@,
            x_slot: self.x_slot as int,
            slot_count: self.slot_count as int,
            top: self.top as int,
            height: self.height as int,
        }
    }
}

/// A timed event of the day: its position in the input, its start and end, and the end used
/// for overlap (one minute after the start for an event that does not end after it starts).
#[derive(Clone, Copy)]
pub struct Item {
    pub idx: usize,
    pub start: Moment,
    pub end: Moment,
    pub eend: Moment,
}

/// Two moments name the same instant.
pub open spec fn same_instant(a: Moment, b: Moment) -> bool {
    a.secs == b.secs && a.nanos == b.nanos
}

/// Items are ordered by start, then by end.
pub open spec fn key_lt(a: Item, b: Item) -> bool {
    a.start.before(b.start) || (same_instant(a.start, b.start) && a.end.before(b.end))
}

/// The timed events among the first `n` that overlap the day `[ds, de)`, in input order.
pub open spec fn timed_upto(
    evs: Seq<EventView>,
    ends: Seq<Moment>,
    ds: Moment,
    de: Moment,
    n: nat,
) -> Seq<Item>
    decreases n,
{
    if n == 0 {
        Seq::empty()
    } else {
        let prev = timed_upto(evs, ends, ds, de, (n - 1) as nat);
        let i = n - 1;
        if !evs[i].all_day && ds.before(ends[i]) && evs[i].start.before(de) {
            prev.push(Item { idx: i as usize, start: evs[i].start, end: evs[i].end, eend: ends[i] })
        } else {
            prev
        }
    }
}

/// Where a stable insertion puts `x` into sorted `t`: after every item whose key is not greater.
pub open spec fn insert_pos(t: Seq<Item>, x: Item) -> int
    decreases t.len(),
{
    if t.len() == 0 {
        0
    } else if key_lt(x, t[0]) {
        0
    } else {
        1 + insert_pos(t.drop_first(), x)
    }
}

/// The place where an item goes into a sorted list lies within the list.
pub proof fn lemma_insert_pos_bounds(t: Seq<Item>, x: Item)
    ensures
        0 <= insert_pos(t, x) <= t.len(),
    decreases t.len(),
{
    if t.len() > 0 && !key_lt(x, t[0]) {
        lemma_insert_pos_bounds(t.drop_first(), x);
    }
}

/// The items stably sorted by (start, end).
pub open spec fn sort_items(s: Seq<Item>) -> Seq<Item>
    decreases s.len(),
{
    if s.len() == 0 {
        Seq::empty()
    } else {
        let t = sort_items(s.drop_last());
        t.insert(insert_pos(t, s.last()), s.last())
    }
}

/// `a` comes no later than `b` when ordered by start instant and then by end instant
/// (seconds, then nanoseconds).
pub open spec fn start_end_le(a: Item, b: Item) -> bool {
    ||| a.start.secs < b.start.secs
    ||| a.start.secs == b.start.secs && a.start.nanos < b.start.nanos
    ||| a.start.secs == b.start.secs && a.start.nanos == b.start.nanos && (a.end.secs < b.end.secs
        || (a.end.secs == b.end.secs && a.end.nanos <= b.end.nanos))
}

/// Every item before the insertion place is not after `x`; the item at it is after `x`.
proof fn lemma_insert_pos_props(t: Seq<Item>, x: Item)
    ensures
        0 <= insert_pos(t, x) <= t.len(),
        forall|i: int| 0 <= i < insert_pos(t, x) ==> !key_lt(x, #[trigger] t[i]),
        insert_pos(t, x) < t.len() ==> key_lt(x, t[insert_pos(t, x)]),
    decreases t.len(),
{
    if t.len() > 0 && !key_lt(x, t[0]) {
        lemma_insert_pos_props(t.drop_first(), x);
        assert forall|i: int| 0 <= i < insert_pos(t, x) implies !key_lt(x, #[trigger] t[i]) by {
            if i > 0 {
                assert(t[i] == t.drop_first()[i - 1]);
            }
        }
    }
}

/// The layout takes a day's timed events in order of start and, among those that start
/// together, of end: in the sorted items, each comes no later than every one after it. The
/// items are the ones given, each kept.
pub proof fn law_layout_order(s: Seq<Item>)
    ensures
        sort_items(s).len() == s.len(),
        sort_items(s).to_multiset() == s.to_multiset(),
        forall|i: int, j: int|
            0 <= i < j < sort_items(s).len() ==> start_end_le(#[trigger] sort_items(s)[i], #[trigger] sort_items(s)[j]),
    decreases s.len(),
{
    if s.len() > 0 {
        law_layout_order(s.drop_last());
        let t = sort_items(s.drop_last());
        let x = s.last();
        lemma_insert_pos_props(t, x);
        let p = insert_pos(t, x);
        let u = t.insert(p, x);
        assert(u == sort_items(s));
        assert forall|i: int, j: int| 0 <= i < j < u.len() implies start_end_le(#[trigger] u[i], #[trigger] u[j]) by {
            if j < p {
                assert(u[i] == t[i] && u[j] == t[j]);
            } else if j == p {
                assert(u[j] == x && u[i] == t[i]);
                assert(!key_lt(x, t[i]));
            } else if i < p {
                assert(u[i] == t[i] && u[j] == t[j - 1]);
                assert(!key_lt(x, t[i]));
                assert(key_lt(x, t[p]));
                if p < j - 1 {
                    assert(start_end_le(t[p], t[j - 1]));
                }
            } else if i == p {
                assert(u[i] == x && u[j] == t[j - 1]);
                assert(key_lt(x, t[p]));
                if p < j - 1 {
                    assert(start_end_le(t[p], t[j - 1]));
                }
            } else {
                assert(u[i] == t[i - 1] && u[j] == t[j - 1]);
            }
        }
        vstd::seq_lib::to_multiset_insert(t, p, x);
        s.drop_last().to_multiset_ensures();
        assert(s.drop_last().push(x) =~= s);
        assert(s.to_multiset() =~= s.drop_last().to_multiset().insert(x));
        assert(u.to_multiset() =~= t.to_multiset().insert(x));
    } else {
        s.to_multiset_ensures();
        assert(sort_items(s) =~= s);
    }
}

/// Two items' spans `[start, overlap end)` intersect.
pub open spec fn items_overlap(a: Item, b: Item) -> bool {
    a.start.before(b.eend) && b.start.before(a.eend)
}

/// The slot that `first_free` picks is free at `start`, and every slot before it is still busy.
proof fn lemma_first_free_props(slot_ends: Seq<Moment>, start: Moment)
    ensures
        0 <= first_free(slot_ends, start) <= slot_ends.len(),
        first_free(slot_ends, start) < slot_ends.len() ==> !start.before(
            slot_ends[first_free(slot_ends, start)],
        ),
        forall|q: int| 0 <= q < first_free(slot_ends, start) ==> start.before(#[trigger] slot_ends[q]),
    decreases slot_ends.len(),
{
    if slot_ends.len() > 0 && start.before(slot_ends[0]) {
        lemma_first_free_props(slot_ends.drop_first(), start);
        assert forall|q: int| 0 <= q < first_free(slot_ends, start) implies start.before(
            #[trigger] slot_ends[q],
        ) by {
            if q > 0 {
                assert(slot_ends[q] == slot_ends.drop_first()[q - 1]);
            }
        }
    }
}

/// What holds after placing the items of `s` in order: the group's end is after every item's
/// overlap end; the last item is in the current group; each item of the current group has a
/// slot whose recorded end is not before its own; an item of an earlier group ends before any
/// item of a later group starts; and overlapping items share a group but not a slot.
spec fn placed_ok(s: Seq<Item>) -> bool {
    let st = group_state(s);
    let a = assignment(s);
    &&& a.len() == s.len()
    &&& (st.group_end is None <==> s.len() == 0)
    &&& (st.group_end matches Some(ge) ==> forall|i: int| 0 <= i < s.len() ==> !ge.before(#[trigger] s[i].eend))
    &&& (s.len() > 0 ==> a[s.len() - 1].0 == st.group)
    &&& forall|i: int| 0 <= i < s.len() ==> (#[trigger] a[i]).0 <= st.group
    &&& forall|i: int|
        0 <= i < s.len() && (#[trigger] a[i]).0 == st.group ==> 0 <= a[i].1 < st.slot_ends.len()
            && !st.slot_ends[a[i].1].before(s[i].eend)
    &&& forall|i: int, k: int|
        0 <= i < s.len() && 0 <= k < s.len() && (#[trigger] a[i]).0 < (#[trigger] a[k]).0
            ==> !s[k].start.before(s[i].eend)
    &&& forall|i: int, j: int|
        0 <= i < j < s.len() && items_overlap(#[trigger] s[i], #[trigger] s[j]) ==> a[i].0 == a[j].0
            && a[i].1 != a[j].1
}

/// Placing items sorted by start, each ending no earlier than it starts, keeps `placed_ok`.
proof fn lemma_placed(s: Seq<Item>)
    requires
        forall|i: int, j: int| 0 <= i < j < s.len() ==> start_end_le(#[trigger] s[i], #[trigger] s[j]),
        forall|i: int| 0 <= i < s.len() ==> !(#[trigger] s[i]).eend.before(s[i].start),
    ensures
        placed_ok(s),
    decreases s.len(),
{
    if s.len() > 0 {
        let p = s.drop_last();
        let x = s.last();
        let n = s.len() - 1;
        assert forall|i: int, j: int| 0 <= i < j < p.len() implies start_end_le(#[trigger] p[i], #[trigger] p[j]) by {
            assert(p[i] == s[i] && p[j] == s[j]);
        }
        assert forall|i: int| 0 <= i < p.len() implies !(#[trigger] p[i]).eend.before(p[i].start) by {
            assert(p[i] == s[i]);
        }
        lemma_placed(p);
        let st = group_state(p);
        let a0 = assignment(p);
        let r = step(st, x);
        let a = assignment(s);
        assert(a == a0.push(r.1));
        assert(group_state(s) == r.0);
        assert forall|i: int| 0 <= i < n implies #[trigger] s[i] == p[i] by {}
        assert(s[n] == x);
        if st.group_end is None || !x.start.before(st.group_end->0) {
            // A new group: every earlier item ends by the old group's end, which `x` starts at or after.
            assert forall|i: int| 0 <= i < n implies !x.start.before(#[trigger] s[i].eend) by {
                assert(p[i] == s[i]);
            }
            assert forall|i: int, j: int| 0 <= i < j < s.len() && items_overlap(#[trigger] s[i], #[trigger] s[j])
                implies a[i].0 == a[j].0 && a[i].1 != a[j].1 by {
                if j < n {
                    assert(a[i] == a0[i] && a[j] == a0[j]);
                    assert(p[i] == s[i] && p[j] == s[j]);
                } else {
                    assert(!x.start.before(s[i].eend));
                }
            }
            assert forall|i: int, k: int|
                0 <= i < s.len() && 0 <= k < s.len() && (#[trigger] a[i]).0 < (#[trigger] a[k]).0
                implies !s[k].start.before(s[i].eend) by {
                if k < n && i < n {
                    assert(a[i] == a0[i] && a[k] == a0[k]);
                    assert(p[i] == s[i] && p[k] == s[k]);
                } else if k == n {
                    assert(!x.start.before(s[i].eend));
                } else {
                    assert(a[k] == a0[k]);
                    assert(a0[k].0 <= st.group);
                }
            }
        } else {
            let ge = st.group_end->0;
            let jf = first_free(st.slot_ends, x.start);
            lemma_first_free_props(st.slot_ends, x.start);
            let last = p[n - 1];
            assert(a0[n - 1].0 == st.group);
            assert(start_end_le(s[n - 1], s[n]));
            assert forall|i: int, j: int| 0 <= i < j < s.len() && items_overlap(#[trigger] s[i], #[trigger] s[j])
                implies a[i].0 == a[j].0 && a[i].1 != a[j].1 by {
                if j < n {
                    assert(a[i] == a0[i] && a[j] == a0[j]);
                    assert(p[i] == s[i] && p[j] == s[j]);
                } else {
                    assert(a[i] == a0[i] && p[i] == s[i]);
                    if a0[i].0 < st.group {
                        assert(!last.start.before(s[i].eend));
                    }
                    assert(a0[i].0 == st.group);
                    assert(!st.slot_ends[a0[i].1].before(s[i].eend));
                }
            }
            assert forall|i: int, k: int|
                0 <= i < s.len() && 0 <= k < s.len() && (#[trigger] a[i]).0 < (#[trigger] a[k]).0
                implies !s[k].start.before(s[i].eend) by {
                if k < n && i < n {
                    assert(a[i] == a0[i] && a[k] == a0[k]);
                    assert(p[i] == s[i] && p[k] == s[k]);
                } else if k == n {
                    assert(a[i] == a0[i] && p[i] == s[i]);
                    assert(!last.start.before(s[i].eend));
                } else {
                    assert(a[k] == a0[k]);
                }
            }
            assert forall|i: int| 0 <= i < s.len() && (#[trigger] a[i]).0 == r.0.group
                implies 0 <= a[i].1 < r.0.slot_ends.len() && !r.0.slot_ends[a[i].1].before(s[i].eend) by {
                if i < n {
                    assert(a[i] == a0[i] && p[i] == s[i]);
                    if a0[i].1 == jf {
                        assert(!x.start.before(st.slot_ends[jf]));
                    }
                }
            }
        }
    }
}

/// Overlapping events never share a column: in the layout's order, two items whose spans
/// `[start, overlap end)` intersect are put in the same group, so they are drawn with the same
/// number of slots, and in different slots of it. (Each item's overlap end is not before its
/// start.)
pub proof fn law_overlapping_items_get_different_slots(s: Seq<Item>)
    requires
        forall|i: int| 0 <= i < s.len() ==> !(#[trigger] s[i]).eend.before(s[i].start),
    ensures
        ({
            let sorted = sort_items(s);
            let a = assignment(sorted);
            forall|i: int, j: int|
                0 <= i < sorted.len() && 0 <= j < sorted.len() && i != j && items_overlap(
                    #[trigger] sorted[i],
                    #[trigger] sorted[j],
                ) ==> a[i].0 == a[j].0 && a[i].1 != a[j].1 && group_slots(a, a[i].0) == group_slots(
                    a,
                    a[j].0,
                )
        }),
{
    law_layout_order(s);
    let sorted = sort_items(s);
    assert forall|i: int| 0 <= i < sorted.len() implies !(#[trigger] sorted[i]).eend.before(sorted[i].start) by {
        vstd::seq_lib::to_multiset_contains(sorted, sorted[i]);
        assert(sorted.to_multiset().count(sorted[i]) > 0);
        assert(s.to_multiset().count(sorted[i]) > 0);
        vstd::seq_lib::to_multiset_contains(s, sorted[i]);
    }
    lemma_placed(sorted);
    let a = assignment(sorted);
    assert forall|i: int, j: int|
        0 <= i < sorted.len() && 0 <= j < sorted.len() && i != j && items_overlap(#[trigger] sorted[i], #[trigger] sorted[j])
        implies a[i].0 == a[j].0 && a[i].1 != a[j].1 by {
        if j < i {
            assert(items_overlap(sorted[j], sorted[i]));
        }
    }
}

/// The layout's sort is stable: items with the same start and end instants keep the order in
/// which they were given.
pub proof fn law_layout_sort_stable(s: Seq<Item>)
    requires
        forall|i: int, j: int| 0 <= i < j < s.len() ==> (#[trigger] s[i]).idx < (#[trigger] s[j]).idx,
    ensures
        forall|i: int, j: int|
            0 <= i < j < sort_items(s).len() && same_instant((#[trigger] sort_items(s)[i]).start, (#[trigger] sort_items(s)[j]).start)
                && same_instant(sort_items(s)[i].end, sort_items(s)[j].end) ==> sort_items(s)[i].idx < sort_items(s)[j].idx,
        forall|i: int| 0 <= i < sort_items(s).len() ==> exists|k: int| 0 <= k < s.len() && #[trigger] sort_items(s)[i] == s[k],
    decreases s.len(),
{
    if s.len() > 0 {
        let p0 = s.drop_last();
        assert forall|i: int, j: int| 0 <= i < j < p0.len() implies (#[trigger] p0[i]).idx < (#[trigger] p0[j]).idx by {
            assert(p0[i] == s[i] && p0[j] == s[j]);
        }
        law_layout_sort_stable(p0);
        law_layout_order(p0);
        let t = sort_items(p0);
        let x = s.last();
        lemma_insert_pos_props(t, x);
        let p = insert_pos(t, x);
        let u = t.insert(p, x);
        assert(u == sort_items(s));
        assert forall|i: int| 0 <= i < u.len() implies exists|k: int| 0 <= k < s.len() && #[trigger] u[i] == s[k] by {
            if i < p {
                assert(u[i] == t[i]);
                let k = choose|k: int| 0 <= k < p0.len() && t[i] == p0[k];
                assert(s[k] == p0[k]);
            } else if i == p {
                assert(u[i] == s[s.len() - 1]);
            } else {
                assert(u[i] == t[i - 1]);
                let k = choose|k: int| 0 <= k < p0.len() && t[i - 1] == p0[k];
                assert(s[k] == p0[k]);
            }
        }
        assert forall|i: int| 0 <= i < t.len() implies (#[trigger] t[i]).idx < x.idx by {
            let k = choose|k: int| 0 <= k < p0.len() && t[i] == p0[k];
            assert(p0[k] == s[k]);
        }
        assert forall|i: int, j: int|
            0 <= i < j < u.len() && same_instant((#[trigger] u[i]).start, (#[trigger] u[j]).start)
                && same_instant(u[i].end, u[j].end) implies u[i].idx < u[j].idx by {
            if j < p {
                assert(u[i] == t[i] && u[j] == t[j]);
            } else if j == p {
                assert(u[i] == t[i] && u[j] == x);
            } else if i < p {
                assert(u[i] == t[i] && u[j] == t[j - 1]);
            } else if i == p {
                assert(u[i] == x && u[j] == t[j - 1]);
                assert(key_lt(x, t[p]));
                if p < j - 1 {
                    assert(start_end_le(t[p], t[j - 1]));
                }
            } else {
                assert(u[i] == t[i - 1] && u[j] == t[j - 1]);
            }
        }
    }
}

/// Sorting keeps the number of items.
pub proof fn lemma_sort_len(s: Seq<Item>)
    ensures
        sort_items(s).len() == s.len(),
    decreases s.len(),
{
    if s.len() > 0 {
        lemma_sort_len(s.drop_last());
        lemma_insert_pos_bounds(sort_items(s.drop_last()), s.last());
    }
}

/// The state of overlap grouping: the current group, where it ends, and where each of its
/// slots is free again.
pub struct GroupState {
    pub group: int,
    pub group_end: Option<Moment>,
    pub slot_ends: Seq<Moment>,
}

/// The first slot that is free when an item starting at `start` begins.
pub open spec fn first_free(slot_ends: Seq<Moment>, start: Moment) -> int
    decreases slot_ends.len(),
{
    if slot_ends.len() == 0 {
        0
    } else if !start.before(slot_ends[0]) {
        0
    } else {
        1 + first_free(slot_ends.drop_first(), start)
    }
}

/// The first free slot is one of the slots or the next new one.
pub proof fn lemma_first_free_bounds(slot_ends: Seq<Moment>, start: Moment)
    ensures
        0 <= first_free(slot_ends, start) <= slot_ends.len(),
    decreases slot_ends.len(),
{
    if slot_ends.len() > 0 && start.before(slot_ends[0]) {
        lemma_first_free_bounds(slot_ends.drop_first(), start);
    }
}

/// One item placed: an item that starts at or after the end of the current group starts a new
/// group in slot 0; otherwise it joins the group, extends its end, and takes the first free slot
/// (a new one when none is free).
pub open spec fn step(st: GroupState, x: Item) -> (GroupState, (int, int)) {
    if st.group_end is None || !x.start.before(st.group_end->0) {
        (
            GroupState { group: st.group + 1, group_end: Some(x.eend), slot_ends: seq![x.eend] },
            (st.group + 1, 0),
        )
    } else {
        let ge = if st.group_end->0.before(x.eend) {
            Some(x.eend)
        } else {
            st.group_end
        };
        let j = first_free(st.slot_ends, x.start);
        let se = if j >= st.slot_ends.len() {
            st.slot_ends.push(x.eend)
        } else {
            st.slot_ends.update(j, x.eend)
        };
        (GroupState { group: st.group, group_end: ge, slot_ends: se }, (st.group, j))
    }
}

/// The grouping state after placing the items in order.
pub open spec fn group_state(s: Seq<Item>) -> GroupState
    decreases s.len(),
{
    if s.len() == 0 {
        GroupState { group: -1, group_end: None, slot_ends: Seq::empty() }
    } else {
        step(group_state(s.drop_last()), s.last()).0
    }
}

/// The (group, slot) of each item, in order.
pub open spec fn assignment(s: Seq<Item>) -> Seq<(int, int)>
    decreases s.len(),
{
    if s.len() == 0 {
        Seq::empty()
    } else {
        assignment(s.drop_last()).push(step(group_state(s.drop_last()), s.last()).1)
    }
}

/// Number of slots that group `g` uses: one more than its highest slot.
pub open spec fn group_slots(asg: Seq<(int, int)>, g: int) -> int
    decreases asg.len(),
{
    if asg.len() == 0 {
        0
    } else {
        let prev = group_slots(asg.drop_last(), g);
        if asg.last().0 == g && asg.last().1 + 1 > prev {
            asg.last().1 + 1
        } else {
            prev
        }
    }
}

/// The rows `(top, height)` of an item in a column of `rows` rows showing minutes
/// `[vs, ve)` of the day `[ds, de)`; `None` when the item lies outside the visible hours.
pub open spec fn project(
    x: Item,
    ds: Moment,
    de: Moment,
    vs: int,
    ve: int,
    rows: int,
) -> Option<(int, int)> {
    let s0 = if x.start.before(ds) {
        0
    } else {
        x.start.minutes()
    };
    let start = if s0 > vs {
        s0
    } else {
        vs
    };
    let e0 = if !x.eend.before(de) {
        1440
    } else {
        x.eend.minutes()
    };
    let end = if e0 < ve {
        e0
    } else {
        ve
    };
    if end <= vs || start >= ve {
        None
    } else {
        let top = (start - vs) * rows / (ve - vs);
        let bottom = (end - vs) * rows / (ve - vs);
        let h = if bottom > top {
            bottom - top
        } else {
            0
        };
        let h1 = if h > 1 {
            h
        } else {
            1
        };
        let room = if rows > top {
            rows - top
        } else {
            0
        };
        let shown_top = if top < rows - 1 {
            top
        } else {
            rows - 1
        };
        Some((
            shown_top,
            if h1 < room {
                h1
            } else {
                room
            },
        ))
    }
}

/// The layout entries of the first `n` sorted items.
pub open spec fn layout_items(
    evs: Seq<EventView>,
    sorted: Seq<Item>,
    asg: Seq<(int, int)>,
    ds: Moment,
    de: Moment,
    vs: int,
    ve: int,
    rows: int,
    n: nat,
) -> Seq<LayoutView>
    decreases n,
{
    if n == 0 {
        Seq::empty()
    } else {
        let prev = layout_items(evs, sorted, asg, ds, de, vs, ve, rows, (n - 1) as nat);
        let k = n - 1;
        match project(sorted[k], ds, de, vs, ve, rows) {
            None => prev,
            Some(p) => prev.push(
                LayoutView {
                    event_id: evs[sorted[k].idx as int].id,
                    x_slot: asg[k].1,
                    slot_count: if group_slots(asg, asg[k].0) > 1 {
                        group_slots(asg, asg[k].0)
                    } else {
                        1
                    },
                    top: p.0,
                    height: p.1,
                },
            ),
        }
    }
}

/// The layout of a day's timed events: those overlapping the day `[ds, de)` (by their overlap
/// ends `ends`) are stably sorted by start and end, transitively overlapping events form a
/// group whose width is its peak slot count, each event takes the first free slot of its group,
/// and events are projected onto the visible rows; events outside the visible hours are left
/// out.
pub open spec fn layout_spec(
    evs: Seq<EventView>,
    ends: Seq<Moment>,
    ds: Moment,
    de: Moment,
    vs: int,
    ve: int,
    rows: int,
) -> Seq<LayoutView> {
    if rows == 0 || ve <= vs {
        Seq::empty()
    } else {
        let s = sort_items(timed_upto(evs, ends, ds, de, evs.len()));
        layout_items(evs, s, assignment(s), ds, de, vs, ve, rows, s.len())
    }
}


/// The plain-value forms of a list of events.
pub open spec fn views(events: Seq<&Event>) -> Seq<EventView> {
    events.map_values(|e: &Event| e@)
}

/// The timed events that overlap the day, in input order.
fn collect_timed(events: &[&Event], ends: &[Moment], ds: Moment, de: Moment) -> (r: Vec<Item>)
    requires
        events.len() == ends.len(),
    ensures
        r@ == timed_upto(views(events@), ends@, ds, de, events.len() as nat),
        forall|k: int| 0 <= k < r.len() ==> (#[trigger] r@[k]).idx < events.len(),
{
    let ghost evs = views(events@);
    let mut r: Vec<Item> = Vec::new();
    let mut i: usize = 0;
    while i < events.len()
        invariant
            i <= events.len() == ends.len(),
            evs == views(events@),
            r@ == timed_upto(evs, ends@, ds, de, i as nat),
            forall|k: int| 0 <= k < r.len() ==> (#[trigger] r@[k]).idx < events.len(),
        decreases events.len() - i,
    {
        let e = events[i];
        assert(evs[i as int] == e@);
        if !e.all_day && ds.is_before(&ends[i]) && e.start.is_before(&de) {
            r.push(Item { idx: i, start: e.start, end: e.end, eend: ends[i] });
        }
        i = i + 1;
    }
    r
}

/// Whether `a` sorts strictly before `b`.
fn key_lt_exec(a: &Item, b: &Item) -> (r: bool)
    ensures
        r == key_lt(*a, *b),
{
    a.start.is_before(&b.start) || (a.start.secs == b.start.secs && a.start.nanos == b.start.nanos
        && a.end.is_before(&b.end))
}

/// The items stably sorted by (start, end), by insertion.
fn sort_items_exec(items: &Vec<Item>, n: usize) -> (r: Vec<Item>)
    requires
        forall|k: int| 0 <= k < items.len() ==> (#[trigger] items@[k]).idx < n,
    ensures
        r@ == sort_items(items@),
        forall|k: int| 0 <= k < r.len() ==> (#[trigger] r@[k]).idx < n,
{
    let mut sorted: Vec<Item> = Vec::new();
    let mut i: usize = 0;
    assert(items@.take(0) =~= Seq::<Item>::empty());
    while i < items.len()
        invariant
            i <= items.len(),
            sorted@ == sort_items(items@.take(i as int)),
            forall|k: int| 0 <= k < items.len() ==> (#[trigger] items@[k]).idx < n,
            forall|k: int| 0 <= k < sorted.len() ==> (#[trigger] sorted@[k]).idx < n,
        decreases items.len() - i,
    {
        let x = items[i];
        let mut p: usize = 0;
        proof {
            lemma_sort_len(items@.take(i as int));
            assert(sorted@.skip(0) =~= sorted@);
        }
        while p < sorted.len() && !key_lt_exec(&x, &sorted[p])
            invariant
                p <= sorted.len(),
                insert_pos(sorted@, x) == p + insert_pos(sorted@.skip(p as int), x),
            decreases sorted.len() - p,
        {
            assert(sorted@.skip(p as int).drop_first() =~= sorted@.skip(p + 1));
            p = p + 1;
        }
        assert(insert_pos(sorted@, x) == p) by {
            if p < sorted.len() {
                assert(sorted@.skip(p as int)[0] == sorted@[p as int]);
            }
        }
        let ghost before = sorted@;
        sorted.insert(p, x);
        proof {
            let t = items@.take(i + 1);
            assert(t.drop_last() =~= items@.take(i as int));
            assert(t.last() == x);
            assert forall|k: int| 0 <= k < sorted.len() implies (#[trigger] sorted@[k]).idx < n by {
                if k < p {
                    assert(sorted@[k] == before[k]);
                } else if k == p {
                    assert(sorted@[k] == items@[i as int]);
                } else {
                    assert(sorted@[k] == before[k - 1]);
                }
            }
        }
        i = i + 1;
    }
    assert(items@.take(i as int) =~= items@);
    sorted
}

/// The first slot that is free at `start`.
fn first_free_exec(slot_ends: &Vec<Moment>, start: &Moment) -> (r: usize)
    ensures
        r == first_free(slot_ends@, *start),
        r <= slot_ends.len(),
{
    let mut j: usize = 0;
    assert(slot_ends@.skip(0) =~= slot_ends@);
    while j < slot_ends.len() && start.is_before(&slot_ends[j])
        invariant
            j <= slot_ends.len(),
            first_free(slot_ends@, *start) == j + first_free(slot_ends@.skip(j as int), *start),
        decreases slot_ends.len() - j,
    {
        assert(slot_ends@.skip(j as int).drop_first() =~= slot_ends@.skip(j + 1));
        j = j + 1;
    }
    proof {
        if j < slot_ends.len() {
            assert(slot_ends@.skip(j as int)[0] == slot_ends@[j as int]);
        }
    }
    j
}

/// The (group, slot) pairs as integers.
pub open spec fn pairs(v: Seq<(usize, usize)>) -> Seq<(int, int)> {
    v.map_values(|p: (usize, usize)| (p.0 as int, p.1 as int))
}

/// Each slot lies below the slot count of its group.
pub proof fn lemma_slot_below_count(asg: Seq<(int, int)>, k: int)
    requires
        0 <= k < asg.len(),
    ensures
        asg[k].1 + 1 <= group_slots(asg, asg[k].0),
    decreases asg.len(),
{
    if k < asg.len() - 1 {
        lemma_slot_below_count(asg.drop_last(), k);
        assert(asg.drop_last()[k] == asg[k]);
    }
}

/// Group slot counts do not change for groups that later items do not join.
proof fn lemma_group_slots_push(asg: Seq<(int, int)>, x: (int, int), g: int)
    requires
        x.0 != g,
    ensures
        group_slots(asg.push(x), g) == group_slots(asg, g),
{
    assert(asg.push(x).drop_last() =~= asg);
}

/// Places the sorted items into groups and slots; also returns the slot count of each group.
fn assign_exec(sorted: &Vec<Item>) -> (r: (Vec<(usize, usize)>, Vec<usize>))
    ensures
        pairs(r.0@) == assignment(sorted@),
        r.0.len() == sorted.len(),
        forall|k: int| 0 <= k < r.0.len() ==> (#[trigger] r.0@[k]).0 < r.1.len(),
        forall|g: int| 0 <= g < r.1.len() ==> r.1@[g] == group_slots(assignment(sorted@), g),
{
    let mut asg: Vec<(usize, usize)> = Vec::new();
    let mut counts: Vec<usize> = Vec::new();
    let mut groups: usize = 0;
    let mut group_end: Option<Moment> = None;
    let mut slot_ends: Vec<Moment> = Vec::new();
    let mut k: usize = 0;
    assert(sorted@.take(0) =~= Seq::<Item>::empty());
    while k < sorted.len()
        invariant
            k <= sorted.len(),
            asg.len() == k,
            pairs(asg@) == assignment(sorted@.take(k as int)),
            group_state(sorted@.take(k as int)) == (GroupState {
                group: groups - 1,
                group_end,
                slot_ends: slot_ends@,
            }),
            groups <= k,
            k > 0 ==> groups > 0,
            counts.len() + 1 == groups || (groups == 0 && counts.len() == 0),
            forall|j: int| 0 <= j < asg.len() ==> (#[trigger] asg@[j]).0 < groups,
            forall|g: int| 0 <= g < counts.len() ==> counts@[g] == group_slots(pairs(asg@), g),
            groups > 0 ==> slot_ends.len() == group_slots(pairs(asg@), groups - 1),
            slot_ends.len() <= k,
            group_end is None <==> groups == 0,
        decreases sorted.len() - k,
    {
        let x = sorted[k];
        let ghost prev = sorted@.take(k as int);
        let ghost st = group_state(prev);
        let ghost old_asg = pairs(asg@);
        proof {
            let t = sorted@.take(k + 1);
            assert(t.drop_last() =~= prev);
            assert(t.last() == x);
        }
        let starts_new = match group_end {
            None => true,
            Some(end) => !x.start.is_before(&end),
        };
        if starts_new {
            if groups > 0 {
                counts.push(slot_ends.len());
            }
            let mut fresh: Vec<Moment> = Vec::new();
            fresh.push(x.eend);
            slot_ends = fresh;
            group_end = Some(x.eend);
            asg.push((groups, 0));
            groups = groups + 1;
            proof {
                assert(pairs(asg@) =~= old_asg.push((groups - 1, 0)));
                assert forall|g: int| 0 <= g < counts.len() implies counts@[g] == group_slots(pairs(asg@), g) by {
                    lemma_group_slots_push(old_asg, (groups - 1, 0), g);
                }
                assert(slot_ends@ =~= seq![x.eend]);
                assert(pairs(asg@).drop_last() =~= old_asg);
                assert(group_slots(old_asg, groups - 1) == 0) by {
                    lemma_group_slots_fresh(old_asg, groups - 1);
                }
            }
        } else {
            let end = group_end.unwrap();
            if end.is_before(&x.eend) {
                group_end = Some(x.eend);
            }
            let j = first_free_exec(&slot_ends, &x.start);
            if j == slot_ends.len() {
                slot_ends.push(x.eend);
            } else {
                slot_ends.set(j, x.eend);
            }
            asg.push((groups - 1, j));
            proof {
                assert(pairs(asg@) =~= old_asg.push(((groups - 1) as int, j as int)));
                assert forall|g: int| 0 <= g < counts.len() implies counts@[g] == group_slots(pairs(asg@), g) by {
                    lemma_group_slots_push(old_asg, ((groups - 1) as int, j as int), g);
                }
                assert(pairs(asg@).drop_last() =~= old_asg);
            }
        }
        k = k + 1;
    }
    if groups > 0 {
        counts.push(slot_ends.len());
    }
    assert(sorted@.take(k as int) =~= sorted@);
    (asg, counts)
}

/// A group that no item has joined yet uses no slot.
proof fn lemma_group_slots_fresh(asg: Seq<(int, int)>, g: int)
    requires
        forall|j: int| 0 <= j < asg.len() ==> (#[trigger] asg[j]).0 < g,
    ensures
        group_slots(asg, g) == 0,
    decreases asg.len(),
{
    if asg.len() > 0 {
        assert forall|j: int| 0 <= j < asg.len() - 1 implies (#[trigger] asg.drop_last()[j]).0 < g by {
            assert(asg.drop_last()[j] == asg[j]);
        }
        lemma_group_slots_fresh(asg.drop_last(), g);
    }
}


/// The rows of an item in the visible hours, if it shows there.
fn project_exec(x: &Item, ds: &Moment, de: &Moment, vs: u16, ve: u16, rows: u16) -> (r: Option<(u16, u16)>)
    requires
        x.start.wf(),
        x.eend.wf(),
        vs < ve,
        rows > 0,
    ensures
        match r {
            None => project(*x, *ds, *de, vs as int, ve as int, rows as int) is None,
            Some(p) => project(*x, *ds, *de, vs as int, ve as int, rows as int) == Some((p.0 as int, p.1 as int)),
        },
        r matches Some(p) ==> p.0 < rows && 1 <= p.1 && p.0 + p.1 <= rows,
{
    let s0 = if x.start.is_before(ds) {
        0
    } else {
        x.start.minutes_into_day()
    };
    let start = if s0 > vs as u32 {
        s0
    } else {
        vs as u32
    };
    let e0 = if !x.eend.is_before(de) {
        1440
    } else {
        x.eend.minutes_into_day()
    };
    let end = if e0 < ve as u32 {
        e0
    } else {
        ve as u32
    };
    if end <= vs as u32 || start >= ve as u32 {
        return None;
    }
    let span = (ve - vs) as u32;
    let rows32 = rows as u32;
    assert((start - vs) * rows32 <= 1440 * 65535) by (nonlinear_arith)
        requires
            start - vs <= 1440,
            rows32 <= 65535,
    ;
    assert((end - vs) * rows32 <= 1440 * 65535) by (nonlinear_arith)
        requires
            end - vs <= 1440,
            rows32 <= 65535,
    ;
    let top = (start - vs as u32) * rows32 / span;
    let bottom = (end - vs as u32) * rows32 / span;
    assert(top < rows32) by (nonlinear_arith)
        requires
            top as int == ((start as int - vs as int) * rows32 as int) / (span as int),
            start - vs < span,
            span > 0,
            rows32 > 0,
    ;
    assert(bottom <= rows32) by (nonlinear_arith)
        requires
            bottom as int == ((end as int - vs as int) * rows32 as int) / (span as int),
            end - vs <= span,
            span > 0,
            rows32 > 0,
    ;
    let h = if bottom > top {
        bottom - top
    } else {
        0
    };
    let h1 = if h > 1 {
        h
    } else {
        1
    };
    let room = if rows32 > top {
        rows32 - top
    } else {
        0
    };
    let shown_top = if top < rows32 - 1 {
        top
    } else {
        rows32 - 1
    };
    let height = if h1 < room {
        h1
    } else {
        room
    };
    Some((shown_top as u16, height as u16))
}

/// The slot count shown for a group: at least one.
fn shown_count(c: usize) -> (r: usize)
    ensures
        r == if c > 1 {
            c
        } else {
            1
        },
{
    if c > 1 {
        c
    } else {
        1
    }
}

/// Lays out timed events in one day column, given the instants that bound the day (`ds`, `de`)
/// and the end that each event occupies for overlap (`ends`).
pub fn layout_events(
    events: &[&Event],
    ends: &[Moment],
    ds: Moment,
    de: Moment,
    visible_start: u16,
    visible_end: u16,
    rows: u16,
) -> (r: Vec<EventLayout>)
    requires
        events.len() == ends.len(),
        forall|i: int| 0 <= i < events.len() ==> (#[trigger] events@[i]).wf(),
        forall|i: int| 0 <= i < ends.len() ==> (#[trigger] ends@[i]).wf(),
    ensures
        r@.map_values(|l: EventLayout| l@) == layout_spec(
            views(events@),
            ends@,
            ds,
            de,
            visible_start as int,
            visible_end as int,
            rows as int,
        ),
        forall|k: int|
            0 <= k < r.len() ==> {
                let l = #[trigger] r@[k];
                &&& l.x_slot < l.slot_count
                &&& l.top < rows
                &&& 1 <= l.height
                &&& l.top + l.height <= rows
            },
{
    if rows == 0 || visible_end <= visible_start {
        let r: Vec<EventLayout> = Vec::new();
        assert(r@.map_values(|l: EventLayout| l@) =~= Seq::<LayoutView>::empty());
        return r;
    }
    let ghost evs = views(events@);
    let timed = collect_timed(events, ends, ds, de);
    let sorted = sort_items_exec(&timed, events.len());
    let (asg, counts) = assign_exec(&sorted);
    let ghost a = assignment(sorted@);
    let mut result: Vec<EventLayout> = Vec::new();
    let mut k: usize = 0;
    while k < sorted.len()
        invariant
            k <= sorted.len() == asg.len(),
            evs == views(events@),
            events.len() == ends.len(),
            forall|i: int| 0 <= i < events.len() ==> (#[trigger] events@[i]).wf(),
            forall|i: int| 0 <= i < ends.len() ==> (#[trigger] ends@[i]).wf(),
            sorted@ == sort_items(timed_upto(evs, ends@, ds, de, events.len() as nat)),
            forall|j: int| 0 <= j < sorted.len() ==> (#[trigger] sorted@[j]).idx < events.len(),
            pairs(asg@) == a,
            a == assignment(sorted@),
            forall|j: int| 0 <= j < asg.len() ==> (#[trigger] asg@[j]).0 < counts.len(),
            forall|g: int| 0 <= g < counts.len() ==> counts@[g] == group_slots(a, g),
            0 < rows,
            visible_start < visible_end,
            result@.map_values(|l: EventLayout| l@) == layout_items(
                evs,
                sorted@,
                a,
                ds,
                de,
                visible_start as int,
                visible_end as int,
                rows as int,
                k as nat,
            ),
            forall|j: int|
                0 <= j < result.len() ==> {
                    let l = #[trigger] result@[j];
                    &&& l.x_slot < l.slot_count
                    &&& l.top < rows
                    &&& 1 <= l.height
                    &&& l.top + l.height <= rows
                },
        decreases sorted.len() - k,
    {
        let x = sorted[k];
        proof {
            lemma_timed_items_wf(evs, ends@, ds, de, events.len() as nat);
            lemma_sort_keeps(timed_upto(evs, ends@, ds, de, events.len() as nat));
            assert(evs[x.idx as int] == events@[x.idx as int]@);
        }
        let ghost prev = result@.map_values(|l: EventLayout| l@);
        match project_exec(&x, &ds, &de, visible_start, visible_end, rows) {
            None => {},
            Some((top, height)) => {
                let (g, slot) = asg[k];
                assert(a[k as int] == (g as int, slot as int));
                let count = shown_count(counts[g]);
                proof {
                    lemma_slot_below_count(a, k as int);
                }
                let item = EventLayout {
                    event_id: events[x.idx].id.clone(),
                    x_slot: slot,
                    slot_count: count,
                    top,
                    height,
                };
                result.push(item);
                assert(result@.map_values(|l: EventLayout| l@) =~= prev.push(item@));
            },
        }
        k = k + 1;
    }
    result
}

/// Every timed item carries representable moments.
proof fn lemma_timed_items_wf(
    evs: Seq<EventView>,
    ends: Seq<Moment>,
    ds: Moment,
    de: Moment,
    n: nat,
)
    requires
        n <= evs.len(),
        n <= ends.len(),
        forall|i: int| 0 <= i < evs.len() ==> (#[trigger] evs[i]).start.wf(),
        forall|i: int| 0 <= i < ends.len() ==> (#[trigger] ends[i]).wf(),
    ensures
        forall|k: int|
            0 <= k < timed_upto(evs, ends, ds, de, n).len() ==> (#[trigger] timed_upto(
                evs,
                ends,
                ds,
                de,
                n,
            )[k]).start.wf() && timed_upto(evs, ends, ds, de, n)[k].eend.wf(),
    decreases n,
{
    if n > 0 {
        lemma_timed_items_wf(evs, ends, ds, de, (n - 1) as nat);
        let prev = timed_upto(evs, ends, ds, de, (n - 1) as nat);
        let cur = timed_upto(evs, ends, ds, de, n);
        assert(evs[n - 1].start.wf());
        assert(ends[n - 1].wf());
        assert forall|k: int| 0 <= k < cur.len() implies (#[trigger] cur[k]).start.wf()
            && cur[k].eend.wf() by {
            if k < prev.len() {
                assert(cur[k] == prev[k]);
            }
        }
    }
}

/// Sorting keeps every property that each item has.
proof fn lemma_sort_keeps(s: Seq<Item>)
    requires
        forall|k: int| 0 <= k < s.len() ==> (#[trigger] s[k]).start.wf() && s[k].eend.wf(),
    ensures
        forall|k: int| 0 <= k < sort_items(s).len() ==> (#[trigger] sort_items(s)[k]).start.wf()
            && sort_items(s)[k].eend.wf(),
    decreases s.len(),
{
    if s.len() > 0 {
        let t = s.drop_last();
        assert forall|k: int| 0 <= k < t.len() implies (#[trigger] t[k]).start.wf() && t[k].eend.wf() by {
            assert(t[k] == s[k]);
        }
        lemma_sort_keeps(t);
        lemma_sort_len(t);
        lemma_insert_pos_bounds(sort_items(t), s.last());
        let u = sort_items(t);
        let p = insert_pos(u, s.last());
        assert forall|k: int| 0 <= k < sort_items(s).len() implies (#[trigger] sort_items(s)[k]).start.wf()
            && sort_items(s)[k].eend.wf() by {
            if k < p {
                assert(sort_items(s)[k] == u[k]);
            } else if k > p {
                assert(sort_items(s)[k] == u[k - 1]);
            }
        }
    }
}


/// An end that overlap layout may use for an event: the event's end when it ends after it
/// starts; otherwise one minute after the start (or, should that instant not be computable, the
/// start itself).
pub open spec fn overlap_end_ok(e: EventView, m: Moment) -> bool {
    &&& m.wf()
    &&& e.start.before(e.end) ==> m == e.end
    &&& !e.start.before(e.end) ==> (m == e.start || (e.start.nanos < 1_000_000_000 ==> m.secs
        == e.start.secs + 60 && m.nanos == e.start.nanos))
}

/// The end an event occupies for overlap: its end, or one minute after its start when it does
/// not end after it starts.
fn effective_end(event: &Event) -> (r: Moment)
    requires
        event.wf(),
    ensures
        overlap_end_ok(event@, r),
{
    if event.start.is_before(&event.end) {
        return event.end;
    }
    if event.start.secs < SAFE_MIN_SECS || event.start.secs > SAFE_MAX_SECS {
        return event.start;
    }
    match add_minutes(event.start, 1) {
        Some(m) => m,
        None => event.start,
    }
}

/// Lays out the timed events of `date` in a column of `rows` rows showing the minutes
/// `[visible_start, visible_end)` of the day. The day is bounded by local midnights; where the
/// time zone leaves a local midnight undefined, or the date is the last one supported, nothing
/// is laid out.
pub fn layout_day(
    events: &[&Event],
    date: Day,
    visible_start: u16,
    visible_end: u16,
    rows: u16,
) -> (r: Vec<EventLayout>)
    requires
        date.wf(),
        forall|i: int| 0 <= i < events.len() ==> (#[trigger] events@[i]).wf(),
    ensures
        r.len() == 0 || exists|ds: Moment, de: Moment, ends: Seq<Moment>|
            {
                &&& local_at_result(ds, date, 0, 0)
                &&& date.n < MAX_DAY
                &&& local_at_result(de, Day { n: (date.n + 1) as i32 }, 0, 0)
                &&& ends.len() == events.len()
                &&& forall|i: int| 0 <= i < ends.len() ==> overlap_end_ok(
                    #[trigger] views(events@)[i],
                    ends[i],
                )
                &&& r@.map_values(|l: EventLayout| l@) == layout_spec(
                    views(events@),
                    ends,
                    ds,
                    de,
                    visible_start as int,
                    visible_end as int,
                    rows as int,
                )
            },
        forall|k: int|
            0 <= k < r.len() ==> {
                let l = #[trigger] r@[k];
                &&& l.x_slot < l.slot_count
                &&& l.top < rows
                &&& 1 <= l.height
                &&& l.top + l.height <= rows
            },
{
    if rows == 0 || visible_end <= visible_start {
        return Vec::new();
    }
    let ds = match local_at(date, 0, 0) {
        Some(m) => m,
        None => return Vec::new(),
    };
    let next = match date.add_days(1) {
        Some(d) => d,
        None => return Vec::new(),
    };
    let de = match local_at(next, 0, 0) {
        Some(m) => m,
        None => return Vec::new(),
    };
    let mut ends: Vec<Moment> = Vec::new();
    let mut i: usize = 0;
    while i < events.len()
        invariant
            i <= events.len(),
            ends.len() == i,
            forall|j: int| 0 <= j < events.len() ==> (#[trigger] events@[j]).wf(),
            forall|j: int| 0 <= j < i ==> overlap_end_ok(#[trigger] views(events@)[j], ends@[j]),
        decreases events.len() - i,
    {
        ends.push(effective_end(events[i]));
        i = i + 1;
    }
    assert forall|j: int| 0 <= j < ends.len() implies (#[trigger] ends@[j]).wf() by {
        assert(overlap_end_ok(views(events@)[j], ends@[j]));
    }
    let r = layout_events(events, ends.as_slice(), ds, de, visible_start, visible_end, rows);
    assert(next == Day { n: (date.n + 1) as i32 });
    r
}

} // verus!
