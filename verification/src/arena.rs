//! Sub-allocation of ranges from one shared buffer.

use vstd::prelude::*;
use crate::math::IndexRange;

verus! {

/// The state of a [`RangeArena`]: the ranges that were given back, by
/// rising position, the frontier above which nothing is handed out, and
/// the size of the buffer.
pub struct ArenaView {
    pub free: Seq<IndexRange>,
    pub frontier: int,
    pub capacity: int,
}

/// The position in `free` of the first range with room for `len` elements,
/// or the length of `free` if there is none.
pub open spec fn first_fit(free: Seq<IndexRange>, len: int) -> int
    decreases free.len(),
{
    if free.len() == 0 {
        0
    } else if free.first().spec_len() >= len {
        0
    } else {
        1 + first_fit(free.drop_first(), len)
    }
}

/// The number of leading ranges of `free` that end at or before `start`:
/// where a range that starts at `start` belongs among them.
pub open spec fn place_of(free: Seq<IndexRange>, start: int) -> int
    decreases free.len(),
{
    if free.len() == 0 {
        0
    } else if free.first().end > start {
        0
    } else {
        1 + place_of(free.drop_first(), start)
    }
}

impl ArenaView {
    /// Free ranges are not empty, come by rising position with a gap
    /// between any two of them, and end below the frontier.
    pub open spec fn wf(self) -> bool {
        &&& 0 <= self.frontier <= self.capacity
        &&& forall|i: int|
            0 <= i < self.free.len() ==> (#[trigger] self.free[i]).start < self.free[i].end
                < self.frontier
        &&& forall|i: int, j: int|
            0 <= i < j < self.free.len() ==> (#[trigger] self.free[i]).end < (
            #[trigger] self.free[j]).start
    }

    /// `range` is in use: it lies below the frontier and touches no free
    /// range. An empty range is in use wherever it lies.
    pub open spec fn in_use(self, range: IndexRange) -> bool {
        &&& range.wf()
        &&& range.start < range.end ==> range.end <= self.frontier
        &&& forall|i: int| 0 <= i < self.free.len() ==> range.disjoint(#[trigger] self.free[i])
    }

    /// Whether `allocate(len)` finds room.
    pub open spec fn has_room(self, len: int) -> bool {
        first_fit(self.free, len) < self.free.len() || self.frontier + len <= self.capacity
    }

    /// The range that `allocate(len)` hands out where there is room: the
    /// front of the lowest free range that is large enough, else the range
    /// that starts at the frontier.
    pub open spec fn allocation(self, len: int) -> IndexRange {
        let i = first_fit(self.free, len);
        if i < self.free.len() {
            IndexRange { start: self.free[i].start, end: (self.free[i].start + len) as usize }
        } else {
            IndexRange { start: self.frontier as usize, end: (self.frontier + len) as usize }
        }
    }

    /// The arena after `allocate(len)`.
    pub open spec fn after_allocate(self, len: int) -> ArenaView {
        let i = first_fit(self.free, len);
        if i < self.free.len() {
            if self.free[i].spec_len() == len {
                ArenaView { free: self.free.remove(i), ..self }
            } else {
                ArenaView {
                    free: self.free.update(
                        i,
                        IndexRange {
                            start: (self.free[i].start + len) as usize,
                            end: self.free[i].end,
                        },
                    ),
                    ..self
                }
            }
        } else if self.frontier + len <= self.capacity {
            ArenaView { frontier: self.frontier + len, ..self }
        } else {
            self
        }
    }

    /// The free range that ends where `range` starts, if there is one.
    pub open spec fn joins_below(self, range: IndexRange) -> bool {
        let p = place_of(self.free, range.start as int);
        p > 0 && self.free[p - 1].end == range.start
    }

    /// The free range that starts where `range` ends, if there is one.
    pub open spec fn joins_above(self, range: IndexRange) -> bool {
        let p = place_of(self.free, range.start as int);
        p < self.free.len() && self.free[p].start == range.end
    }

    /// `range` together with the free ranges that touch it.
    pub open spec fn joined(self, range: IndexRange) -> IndexRange {
        let p = place_of(self.free, range.start as int);
        IndexRange {
            start: if self.joins_below(range) {
                self.free[p - 1].start
            } else {
                range.start
            },
            end: if self.joins_above(range) {
                self.free[p].end
            } else {
                range.end
            },
        }
    }

    /// The arena after `release(range)`. An empty range changes nothing.
    /// Any other range is joined with the free ranges that touch it; if the
    /// result ends at the frontier the frontier drops to its start, else
    /// it takes its place among the free ranges.
    pub open spec fn after_release(self, range: IndexRange) -> ArenaView {
        if range.start == range.end {
            self
        } else {
            let p = place_of(self.free, range.start as int);
            let below = if self.joins_below(range) {
                p - 1
            } else {
                p
            };
            let above = if self.joins_above(range) {
                p + 1
            } else {
                p
            };
            let joined = self.joined(range);
            if joined.end == self.frontier {
                ArenaView { free: self.free.take(below), frontier: joined.start as int, ..self }
            } else {
                ArenaView {
                    free: self.free.take(below).push(joined) + self.free.skip(above),
                    ..self
                }
            }
        }
    }
}

/// `first_fit` names the first range that is large enough, and no range
/// before it is.
pub proof fn lemma_first_fit(free: Seq<IndexRange>, len: int)
    ensures
        0 <= first_fit(free, len) <= free.len(),
        first_fit(free, len) < free.len() ==> free[first_fit(free, len)].spec_len() >= len,
        forall|j: int| 0 <= j < first_fit(free, len) ==> (#[trigger] free[j]).spec_len() < len,
    decreases free.len(),
{
    if free.len() > 0 && free.first().spec_len() < len {
        let rest = free.drop_first();
        lemma_first_fit(rest, len);
        assert forall|j: int| 0 <= j < first_fit(free, len) implies (#[trigger] free[j]).spec_len()
            < len by {
            if j > 0 {
                assert(free[j] == rest[j - 1]);
            }
        }
    }
}

/// A position before which no range is large enough, and which is the end
/// of the list or holds a range that is, is the first fit.
pub proof fn lemma_first_fit_is(free: Seq<IndexRange>, len: int, i: int)
    requires
        0 <= i <= free.len(),
        forall|j: int| 0 <= j < i ==> (#[trigger] free[j]).spec_len() < len,
        i < free.len() ==> free[i].spec_len() >= len,
    ensures
        first_fit(free, len) == i,
{
    lemma_first_fit(free, len);
    let f = first_fit(free, len);
    if f < i {
        assert(free[f].spec_len() < len);
    } else if i < f {
        assert(free[i].spec_len() < len);
    }
}

/// `place_of` counts the leading ranges that end at or before `start`, and
/// the range behind them, if there is one, ends above `start`.
pub proof fn lemma_place_of(free: Seq<IndexRange>, start: int)
    ensures
        0 <= place_of(free, start) <= free.len(),
        place_of(free, start) < free.len() ==> free[place_of(free, start)].end > start,
        forall|j: int| 0 <= j < place_of(free, start) ==> (#[trigger] free[j]).end <= start,
    decreases free.len(),
{
    if free.len() > 0 && free.first().end <= start {
        let rest = free.drop_first();
        lemma_place_of(rest, start);
        assert forall|j: int| 0 <= j < place_of(free, start) implies (#[trigger] free[j]).end
            <= start by {
            if j > 0 {
                assert(free[j] == rest[j - 1]);
            }
        }
    }
}

/// A position before which every range ends at or before `start`, and
/// which is the end of the list or holds a range that ends above `start`,
/// is the place of `start`.
pub proof fn lemma_place_of_is(free: Seq<IndexRange>, start: int, i: int)
    requires
        0 <= i <= free.len(),
        forall|j: int| 0 <= j < i ==> (#[trigger] free[j]).end <= start,
        i < free.len() ==> free[i].end > start,
    ensures
        place_of(free, start) == i,
{
    lemma_place_of(free, start);
    let p = place_of(free, start);
    if p < i {
        assert(free[p].end <= start);
    } else if i < p {
        assert(free[i].end <= start);
    }
}

/// What an allocation guarantees: the arena stays well formed, the new
/// range is in use, and every range that was in use still is and does not
/// overlap the new one.
pub proof fn lemma_allocate_keeps_apart(arena: ArenaView, len: int)
    requires
        arena.wf(),
        0 <= len,
        arena.has_room(len),
        arena.capacity <= usize::MAX,
    ensures
        arena.after_allocate(len).wf(),
        arena.allocation(len).spec_len() == len,
        arena.allocation(len).end <= arena.capacity,
        arena.after_allocate(len).in_use(arena.allocation(len)),
        arena.after_allocate(len).capacity == arena.capacity,
        forall|range: IndexRange| #[trigger]
            arena.in_use(range) ==> arena.after_allocate(len).in_use(range) && range.disjoint(
                arena.allocation(len),
            ),
{
    lemma_first_fit(arena.free, len);
    let i = first_fit(arena.free, len);
    let post = arena.after_allocate(len);
    let taken = arena.allocation(len);
    if i < arena.free.len() {
        let source = arena.free[i];
        assert forall|range: IndexRange| #[trigger] arena.in_use(range) implies post.in_use(range)
            && range.disjoint(taken) by {
            assert(range.disjoint(arena.free[i]));
            assert forall|k: int| 0 <= k < post.free.len() implies range.disjoint(
                #[trigger] post.free[k],
            ) by {
                if source.spec_len() == len {
                    if k < i {
                        assert(post.free[k] == arena.free[k]);
                    } else {
                        assert(post.free[k] == arena.free[k + 1]);
                    }
                } else {
                    if k != i {
                        assert(post.free[k] == arena.free[k]);
                    }
                }
            }
        }
        assert forall|k: int| 0 <= k < post.free.len() implies taken.disjoint(
            #[trigger] post.free[k],
        ) by {
            if source.spec_len() == len {
                if k < i {
                    assert(arena.free[k].end < arena.free[i].start);
                } else {
                    assert(arena.free[i].end < arena.free[k + 1].start);
                }
            } else {
                if k < i {
                    assert(arena.free[k].end < arena.free[i].start);
                } else if k > i {
                    assert(arena.free[i].end < arena.free[k].start);
                }
            }
        }
        assert forall|k: int, l: int| 0 <= k < l < post.free.len() implies (
        #[trigger] post.free[k]).end < (#[trigger] post.free[l]).start by {
            if source.spec_len() == len {
                let k0 = if k < i {
                    k
                } else {
                    k + 1
                };
                let l0 = if l < i {
                    l
                } else {
                    l + 1
                };
                assert(arena.free[k0].end < arena.free[l0].start);
            } else {
                assert(arena.free[k].end < arena.free[l].start);
            }
        }
        assert forall|k: int| 0 <= k < post.free.len() implies (#[trigger] post.free[k]).start
            < post.free[k].end < post.frontier by {
            if source.spec_len() == len {
                let k0 = if k < i {
                    k
                } else {
                    k + 1
                };
                assert(arena.free[k0].start < arena.free[k0].end);
            } else {
                assert(arena.free[k].start < arena.free[k].end);
            }
        }
    } else {
        assert forall|range: IndexRange| #[trigger] arena.in_use(range) implies post.in_use(range)
            && range.disjoint(taken) by {}
        assert forall|k: int| 0 <= k < post.free.len() implies taken.disjoint(
            #[trigger] post.free[k],
        ) by {
            assert(arena.free[k].end < arena.frontier);
        }
    }
}

/// Where a range in use lies among the free ranges: the free ranges before
/// its place end at or before its start, those from its place on start at
/// or behind its end.
pub proof fn lemma_in_use_has_a_gap(arena: ArenaView, range: IndexRange)
    requires
        arena.wf(),
        arena.in_use(range),
        range.start < range.end,
    ensures
        0 <= place_of(arena.free, range.start as int) <= arena.free.len(),
        forall|j: int|
            0 <= j < place_of(arena.free, range.start as int) ==> (#[trigger] arena.free[j]).end
                <= range.start,
        forall|j: int|
            place_of(arena.free, range.start as int) <= j < arena.free.len() ==> range.end <= (
            #[trigger] arena.free[j]).start,
{
    let p = place_of(arena.free, range.start as int);
    lemma_place_of(arena.free, range.start as int);
    assert forall|j: int| p <= j < arena.free.len() implies range.end <= (
    #[trigger] arena.free[j]).start by {
        assert(range.disjoint(arena.free[j]));
        if j > p {
            assert(arena.free[p].end < arena.free[j].start);
        }
    }
}

/// The free ranges after the release of a range that does not reach the
/// frontier: those below the joined range are as they were, then comes the
/// joined range, then those above it as they were.
proof fn lemma_released_list(arena: ArenaView, released: IndexRange)
    requires
        arena.wf(),
        arena.in_use(released),
        released.start < released.end,
        arena.joined(released).end != arena.frontier,
    ensures
        ({
            let p = place_of(arena.free, released.start as int);
            let below = if arena.joins_below(released) {
                p - 1
            } else {
                p
            };
            let above = if arena.joins_above(released) {
                p + 1
            } else {
                p
            };
            let post = arena.after_release(released).free;
            &&& 0 <= below <= p <= above <= arena.free.len()
            &&& post.len() == below + 1 + arena.free.len() - above
            &&& post[below] == arena.joined(released)
            &&& forall|i: int| 0 <= i < below ==> #[trigger] post[i] == arena.free[i]
            &&& forall|i: int|
                below < i < post.len() ==> #[trigger] post[i] == arena.free[i - below - 1 + above]
        }),
{
    lemma_place_of(arena.free, released.start as int);
}

/// The joined range reaches from a free range that ends where the released
/// one starts, or from the released one itself, to a free range that starts
/// where the released one ends, or to the released one itself; the free
/// ranges that are not joined keep a gap to it.
proof fn lemma_joined_has_gaps(arena: ArenaView, released: IndexRange)
    requires
        arena.wf(),
        arena.in_use(released),
        released.start < released.end,
    ensures
        ({
            let p = place_of(arena.free, released.start as int);
            let below = if arena.joins_below(released) {
                p - 1
            } else {
                p
            };
            let above = if arena.joins_above(released) {
                p + 1
            } else {
                p
            };
            let joined = arena.joined(released);
            &&& 0 <= below <= p <= above <= arena.free.len()
            &&& joined.start <= released.start < released.end <= joined.end <= arena.frontier
            &&& forall|i: int| 0 <= i < below ==> (#[trigger] arena.free[i]).end < joined.start
            &&& forall|i: int|
                above <= i < arena.free.len() ==> joined.end < (#[trigger] arena.free[i]).start
            &&& arena.joins_above(released) ==> joined.end < arena.frontier
        }),
{
    let p = place_of(arena.free, released.start as int);
    lemma_in_use_has_a_gap(arena, released);
    let joined = arena.joined(released);
    if p > 0 {
        assert(arena.free[p - 1].start < arena.free[p - 1].end);
        assert(arena.free[p - 1].end <= released.start);
    }
    if p < arena.free.len() {
        assert(arena.free[p].start < arena.free[p].end < arena.frontier);
        assert(released.end <= arena.free[p].start);
    }
    let below = if arena.joins_below(released) {
        p - 1
    } else {
        p
    };
    let above = if arena.joins_above(released) {
        p + 1
    } else {
        p
    };
    assert forall|i: int| 0 <= i < below implies (#[trigger] arena.free[i]).end < joined.start by {
        if arena.joins_below(released) {
            assert(arena.free[i].end < arena.free[p - 1].start);
        } else {
            assert(arena.free[i].end <= released.start);
            if i < p - 1 {
                assert(arena.free[i].end < arena.free[p - 1].start);
            }
        }
    }
    assert forall|i: int| above <= i < arena.free.len() implies joined.end < (
    #[trigger] arena.free[i]).start by {
        if arena.joins_above(released) {
            assert(arena.free[p].end < arena.free[i].start);
        } else {
            assert(released.end <= arena.free[i].start);
            if i > p {
                assert(arena.free[p].end < arena.free[i].start);
            }
        }
    }
}

/// A range in use that does not overlap the released one does not overlap
/// the joined one either.
proof fn lemma_joined_stays_apart(arena: ArenaView, released: IndexRange, range: IndexRange)
    requires
        arena.wf(),
        arena.in_use(released),
        released.start < released.end,
        arena.in_use(range),
        range.disjoint(released),
    ensures
        range.disjoint(arena.joined(released)),
{
    let p = place_of(arena.free, released.start as int);
    lemma_place_of(arena.free, released.start as int);
    if p > 0 {
        assert(range.disjoint(arena.free[p - 1]));
        assert(arena.free[p - 1].start < arena.free[p - 1].end);
    }
    if p < arena.free.len() {
        assert(range.disjoint(arena.free[p]));
        assert(arena.free[p].start < arena.free[p].end);
    }
}

/// What a release guarantees: the arena stays well formed, and every other
/// range that was in use and does not overlap the released one still is in
/// use.
pub proof fn lemma_release_keeps_apart(arena: ArenaView, released: IndexRange)
    requires
        arena.wf(),
        arena.in_use(released),
    ensures
        arena.after_release(released).wf(),
        arena.after_release(released).capacity == arena.capacity,
        forall|range: IndexRange|
            #[trigger] arena.in_use(range) && range.disjoint(released) ==> arena.after_release(
                released,
            ).in_use(range),
{
    if released.start < released.end {
        let post = arena.after_release(released);
        let joined = arena.joined(released);
        lemma_joined_has_gaps(arena, released);
        if joined.end == arena.frontier {
            lemma_release_lowers_frontier(arena, released);
        } else {
            lemma_release_joins_list(arena, released);
        }
    }
}

/// The release of a range whose joined range ends at the frontier.
proof fn lemma_release_lowers_frontier(arena: ArenaView, released: IndexRange)
    requires
        arena.wf(),
        arena.in_use(released),
        released.start < released.end,
        arena.joined(released).end == arena.frontier,
    ensures
        arena.after_release(released).wf(),
        forall|range: IndexRange|
            #[trigger] arena.in_use(range) && range.disjoint(released) ==> arena.after_release(
                released,
            ).in_use(range),
{
    let post = arena.after_release(released);
    let joined = arena.joined(released);
    lemma_joined_has_gaps(arena, released);
    assert forall|i: int| 0 <= i < post.free.len() implies (#[trigger] post.free[i]).start
        < post.free[i].end < post.frontier by {
        assert(post.free[i] == arena.free[i]);
        assert(arena.free[i].start < arena.free[i].end);
        assert(arena.free[i].end < joined.start);
    }
    assert forall|i: int, j: int| 0 <= i < j < post.free.len() implies (
    #[trigger] post.free[i]).end < (#[trigger] post.free[j]).start by {
        assert(arena.free[i].end < arena.free[j].start);
    }
    assert forall|range: IndexRange| #[trigger]
        arena.in_use(range) && range.disjoint(released) implies post.in_use(range) by {
        lemma_joined_stays_apart(arena, released, range);
        assert forall|i: int| 0 <= i < post.free.len() implies range.disjoint(
            #[trigger] post.free[i],
        ) by {
            assert(range.disjoint(arena.free[i]));
        }
    }
}

/// The release of a range whose joined range takes its place among the
/// free ranges.
proof fn lemma_release_joins_list(arena: ArenaView, released: IndexRange)
    requires
        arena.wf(),
        arena.in_use(released),
        released.start < released.end,
        arena.joined(released).end != arena.frontier,
    ensures
        arena.after_release(released).wf(),
        forall|range: IndexRange|
            #[trigger] arena.in_use(range) && range.disjoint(released) ==> arena.after_release(
                released,
            ).in_use(range),
{
    let post = arena.after_release(released);
    let joined = arena.joined(released);
    let p = place_of(arena.free, released.start as int);
    let below = if arena.joins_below(released) {
        p - 1
    } else {
        p
    };
    let above = if arena.joins_above(released) {
        p + 1
    } else {
        p
    };
    lemma_joined_has_gaps(arena, released);
    lemma_released_list(arena, released);
    assert forall|i: int| 0 <= i < post.free.len() implies (#[trigger] post.free[i]).start
        < post.free[i].end < post.frontier by {
        if i < below {
            assert(arena.free[i].start < arena.free[i].end);
        } else if i > below {
            let at = i - below - 1 + above;
            assert(arena.free[at].start < arena.free[at].end);
        }
    }
    assert forall|i: int, j: int| 0 <= i < j < post.free.len() implies (
    #[trigger] post.free[i]).end < (#[trigger] post.free[j]).start by {
        if j < below {
            assert(arena.free[i].end < arena.free[j].start);
        } else if j == below {
            assert(arena.free[i].end < joined.start);
        } else if i == below {
            assert(joined.end < arena.free[j - below - 1 + above].start);
        } else if i < below {
            assert(arena.free[i].end < arena.free[j - below - 1 + above].start);
        } else {
            assert(arena.free[i - below - 1 + above].end < arena.free[j - below - 1 + above].start);
        }
    }
    assert forall|range: IndexRange| #[trigger]
        arena.in_use(range) && range.disjoint(released) implies post.in_use(range) by {
        lemma_joined_stays_apart(arena, released, range);
        assert forall|i: int| 0 <= i < post.free.len() implies range.disjoint(
            #[trigger] post.free[i],
        ) by {
            if i < below {
                assert(range.disjoint(arena.free[i]));
            } else if i > below {
                assert(range.disjoint(arena.free[i - below - 1 + above]));
            }
        }
    }
}

/// Hands out ranges of a buffer of fixed size and takes them back. A range
/// that is given back is joined with the free ranges that touch it, so that
/// an arena from which everything was given back is as it was made.
pub struct RangeArena {
    free: Vec<IndexRange>,
    frontier: usize,
    capacity: usize,
}

impl View for RangeArena {
    type V = ArenaView;

    /// The free ranges, the frontier and the capacity.
    closed spec fn view(&self) -> ArenaView {
        ArenaView {
            free: self.free@,
            frontier: self.frontier as int,
            capacity: self.capacity as int,
        }
    }
}

impl RangeArena {
    /// An arena over a buffer of `capacity` elements, none of them in use.
    pub fn new(capacity: usize) -> (arena: Self)
        ensures
            arena@ == (ArenaView { free: Seq::empty(), frontier: 0, capacity: capacity as int }),
            arena@.wf(),
    {
        RangeArena { free: Vec::new(), frontier: 0, capacity }
    }

    /// Whether a range of `len` elements can be handed out.
    pub fn has_room(&self, len: usize) -> (room: bool)
        requires
            self@.wf(),
        ensures
            room == self@.has_room(len as int),
    {
        let i = self.find(len);
        i < self.free.len() || len <= self.capacity - self.frontier
    }

    fn find(&self, len: usize) -> (i: usize)
        ensures
            i == first_fit(self@.free, len as int),
            i <= self@.free.len(),
    {
        let mut i: usize = 0;
        while i < self.free.len()
            invariant
                i <= self.free@.len(),
                forall|j: int| 0 <= j < i ==> (#[trigger] self.free@[j]).spec_len() < len,
            decreases self.free@.len() - i,
        {
            let range = &self.free[i];
            if range.end >= range.start && range.end - range.start >= len {
                proof {
                    lemma_first_fit_is(self.free@, len as int, i as int);
                }
                return i;
            }
            i += 1;
        }
        proof {
            lemma_first_fit_is(self.free@, len as int, i as int);
        }
        i
    }

    fn place(&self, start: usize) -> (p: usize)
        ensures
            p == place_of(self@.free, start as int),
            p <= self@.free.len(),
    {
        let mut p: usize = 0;
        while p < self.free.len()
            invariant
                p <= self.free@.len(),
                forall|j: int| 0 <= j < p ==> (#[trigger] self.free@[j]).end <= start,
            decreases self.free@.len() - p,
        {
            if self.free[p].end > start {
                proof {
                    lemma_place_of_is(self.free@, start as int, p as int);
                }
                return p;
            }
            p += 1;
        }
        proof {
            lemma_place_of_is(self.free@, start as int, p as int);
        }
        p
    }

    /// Hands out a range of `len` elements, or nothing if no free range and
    /// no space above the frontier is large enough.
    pub fn allocate(&mut self, len: usize) -> (range: Option<IndexRange>)
        requires
            old(self)@.wf(),
        ensures
            final(self)@.wf(),
            final(self)@ == old(self)@.after_allocate(len as int),
            range == if old(self)@.has_room(len as int) {
                Some(old(self)@.allocation(len as int))
            } else {
                None::<IndexRange>
            },
    {
        let i = self.find(len);
        proof {
            lemma_first_fit(self.free@, len as int);
            if self@.has_room(len as int) {
                lemma_allocate_keeps_apart(self@, len as int);
            }
        }
        if i < self.free.len() {
            let source = self.free[i];
            let taken = IndexRange { start: source.start, end: source.start + len };
            if source.end - source.start == len {
                self.free.remove(i);
            } else {
                self.free[i] = IndexRange { start: source.start + len, end: source.end };
            }
            Some(taken)
        } else if len <= self.capacity - self.frontier {
            let taken = IndexRange { start: self.frontier, end: self.frontier + len };
            self.frontier = self.frontier + len;
            Some(taken)
        } else {
            None
        }
    }

    /// Takes back a range that `allocate` handed out.
    pub fn release(&mut self, range: IndexRange)
        requires
            old(self)@.wf(),
            old(self)@.in_use(range),
        ensures
            final(self)@.wf(),
            final(self)@ == old(self)@.after_release(range),
    {
        if range.start == range.end {
            return ;
        }
        proof {
            lemma_release_keeps_apart(self@, range);
            lemma_in_use_has_a_gap(self@, range);
        }
        let p = self.place(range.start);
        let joins_below = p > 0 && self.free[p - 1].end == range.start;
        let joins_above = p < self.free.len() && self.free[p].start == range.end;
        let joined = IndexRange {
            start: if joins_below {
                self.free[p - 1].start
            } else {
                range.start
            },
            end: if joins_above {
                self.free[p].end
            } else {
                range.end
            },
        };
        let below = if joins_below {
            p - 1
        } else {
            p
        };
        if joined.end == self.frontier {
            self.free.truncate(below);
            self.frontier = joined.start;
        } else if joins_below && joins_above {
            self.free[below] = joined;
            self.free.remove(p);
            assert(self.free@ =~= old(self).free@.take(below as int).push(joined) + old(
                self,
            ).free@.skip(p + 1));
        } else if joins_below || joins_above {
            self.free[below] = joined;
            assert(self.free@ =~= old(self).free@.take(below as int).push(joined) + old(
                self,
            ).free@.skip(below + 1));
        } else {
            self.free.insert(p, joined);
            assert(self.free@ =~= old(self).free@.take(p as int).push(joined) + old(
                self,
            ).free@.skip(p as int));
        }
    }
}

} // verus!
