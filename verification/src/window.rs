//! Rolling windows over time.
use crate::time::Timestamp;
use std::collections::VecDeque;
use vstd::prelude::*;

verus! {

/// Something that happened, and when.
#[derive(Debug)]
pub struct Dated<T> {
    pub item: T,
    pub at: Timestamp,
}

impl<T: Copy> Clone for Dated<T> {
    fn clone(&self) -> (r: Self)
        ensures
            r == *self,
    {
        *self
    }
}

impl<T: Copy> Copy for Dated<T> {

}

/// The points that remain after those at the front that lie more than `window`
/// seconds before `now` have been dropped.
pub open spec fn recent<T>(points: Seq<Dated<T>>, now: Timestamp, window: int) -> Seq<Dated<T>>
    decreases points.len(),
{
    if points.len() > 0 && points[0].at.outdated(now, window) {
        recent(points.drop_first(), now, window)
    } else {
        points
    }
}

/// What the points are of, without their times.
pub open spec fn items<T>(points: Seq<Dated<T>>) -> Seq<T> {
    points.map_values(|p: Dated<T>| p.item)
}

/// Points in the order in which they came.
pub struct RollingWindow<T> {
    points: VecDeque<Dated<T>>,
}

impl<T> View for RollingWindow<T> {
    type V = Seq<Dated<T>>;

    closed spec fn view(&self) -> Seq<Dated<T>> {
        self.points@
    }
}

impl<T: Copy> RollingWindow<T> {
    /// A window with nothing in it.
    pub fn new() -> (r: RollingWindow<T>)
        ensures
            r@ == Seq::<Dated<T>>::empty(),
    {
        RollingWindow { points: VecDeque::new() }
    }

    /// Adds a point at the back, then drops the points at the front that lie more
    /// than `window` seconds before `now`.
    pub fn push(&mut self, item: T, at: Timestamp, now: Timestamp, window: i64)
        ensures
            final(self)@ == recent(old(self)@.push(Dated { item, at }), now, window as int),
    {
        self.points.push_back(Dated { item, at });
        let ghost all = self.points@;
        while self.points.len() > 0 && self.points[0].at.is_outdated(now, window)
            invariant
                recent(self.points@, now, window as int) == recent(all, now, window as int),
            decreases self.points@.len(),
        {
            let ghost before = self.points@;
            self.points.pop_front();
            assert(self.points@ =~= before.drop_first());
        }
    }

    /// The number of points.
    pub fn len(&self) -> (r: usize)
        ensures
            r == self@.len(),
    {
        self.points.len()
    }

    /// A point, counted from the front.
    pub fn get(&self, place: usize) -> (r: Dated<T>)
        requires
            place < self@.len(),
        ensures
            r == self@[place as int],
    {
        self.points[place]
    }

    /// The last point, if there is one.
    pub fn last(&self) -> (r: Option<T>)
        ensures
            r == if self@.len() > 0 { Some(self@.last().item) } else { None },
    {
        let n: usize = self.points.len();
        if n > 0 {
            Some(self.points[n - 1].item)
        } else {
            None
        }
    }

    /// What the points are of.
    pub fn items(&self) -> (r: Vec<T>)
        ensures
            r@ == items(self@),
    {
        let mut out: Vec<T> = Vec::new();
        let mut i: usize = 0;
        while i < self.points.len()
            invariant
                i <= self.points@.len(),
                out@ == items(self@).take(i as int),
            decreases self.points@.len() - i,
        {
            out.push(self.points[i].item);
            assert(out@ =~= items(self@).take(i + 1));
            i = i + 1;
        }
        assert(out@ =~= items(self@));
        out
    }
}

/// The points of each symbol's window.
pub open spec fn series<T>(windows: Map<Seq<char>, RollingWindow<T>>) -> Map<
    Seq<char>,
    Seq<Dated<T>>,
> {
    windows.map_values(|w: RollingWindow<T>| w@)
}

/// The points of a symbol, none where it has no window.
pub open spec fn points_of<T>(windows: Map<Seq<char>, Seq<Dated<T>>>, symbol: Seq<char>) -> Seq<
    Dated<T>,
> {
    if windows.contains_key(symbol) {
        windows[symbol]
    } else {
        Seq::empty()
    }
}

/// A window keeps a tail of the points, loses only outdated ones, and starts with
/// one that is not outdated.
pub proof fn law_window_keeps_the_recent<T>(points: Seq<Dated<T>>, now: Timestamp, window: int)
    ensures
        recent(points, now, window).len() <= points.len(),
        recent(points, now, window) == points.skip(
            points.len() - recent(points, now, window).len(),
        ),
        forall|i: int|
            0 <= i < points.len() - recent(points, now, window).len() ==> (
            #[trigger] points[i]).at.outdated(now, window),
        recent(points, now, window).len() > 0 ==> !recent(points, now, window)[0].at.outdated(
            now,
            window,
        ),
    decreases points.len(),
{
    if points.len() > 0 && points[0].at.outdated(now, window) {
        let rest = points.drop_first();
        law_window_keeps_the_recent(rest, now, window);
        let kept = recent(points, now, window);
        assert(kept =~= points.skip(points.len() - kept.len()));
        assert forall|i: int| 0 <= i < points.len() - kept.len() implies (
        #[trigger] points[i]).at.outdated(now, window) by {
            if i > 0 {
                assert(rest[i - 1] == points[i]);
            }
        }
    } else {
        assert(points.skip(0) =~= points);
    }
}

/// Where points come in order of time, nothing in a window is outdated, and a
/// point just added stays as long as the window is not negative.
pub proof fn law_window_in_order_of_time<T>(points: Seq<Dated<T>>, now: Timestamp, window: int)
    requires
        forall|i: int, j: int|
            0 <= i <= j < points.len() ==> !(#[trigger] points[j]).at.before(
                (#[trigger] points[i]).at,
            ),
    ensures
        forall|i: int|
            0 <= i < recent(points, now, window).len() ==> !(#[trigger] recent(
                points,
                now,
                window,
            )[i]).at.outdated(now, window),
        points.len() > 0 && points.last().at == now && window >= 0 ==> recent(
            points,
            now,
            window,
        ).len() > 0 && recent(points, now, window).last() == points.last(),
{
    let kept = recent(points, now, window);
    let cut = points.len() - kept.len();
    law_window_keeps_the_recent(points, now, window);
    assert forall|i: int| 0 <= i < kept.len() implies !(#[trigger] kept[i]).at.outdated(
        now,
        window,
    ) by {
        assert(kept[i] == points[cut + i]);
        assert(kept[0] == points[cut]);
    }
    if points.len() > 0 && points.last().at == now && window >= 0 {
        if kept.len() == 0 {
            assert(points[points.len() - 1].at.outdated(now, window));
        }
    }
}

} // verus!
