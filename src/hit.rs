use vstd::prelude::*;

verus! {

/// True when `r` names the object the cursor is nearest to, given each object's signed
/// surface distance key in `dist` and the key of the largest distance that still counts.
/// The least key strictly below `threshold` wins; of equal keys, the first.
pub open spec fn is_nearest(dist: Seq<i64>, threshold: i64, r: Option<usize>) -> bool {
    match r {
        None => forall|j: int| 0 <= j < dist.len() ==> threshold <= #[trigger] dist[j],
        Some(i) => {
            &&& i < dist.len()
            &&& dist[i as int] < threshold
            &&& forall|j: int| 0 <= j < dist.len() ==> dist[i as int] <= #[trigger] dist[j]
            &&& forall|j: int| 0 <= j < i ==> dist[i as int] < #[trigger] dist[j]
        },
    }
}

/// Index of the object whose surface is nearest to the cursor, if its key lies below `threshold`.
/// `dist` holds one key per object, in the order of the objects, that orders them as their
/// signed surface distances (distance to the center less the radius) do.
pub fn nearest_object(dist: &[i64], threshold: i64) -> (r: Option<usize>)
    ensures
        is_nearest(dist@, threshold, r),
{
    let mut best: Option<usize> = None;
    let mut best_dist: i64 = threshold;
    let mut i: usize = 0;
    while i < dist.len()
        invariant
            0 <= i <= dist@.len(),
            match best {
                None => best_dist == threshold && forall|j: int| 0 <= j < i ==> threshold <= #[trigger] dist@[j],
                Some(b) => {
                    &&& b < i
                    &&& best_dist == dist@[b as int]
                    &&& best_dist < threshold
                    &&& forall|j: int| 0 <= j < i ==> best_dist <= #[trigger] dist@[j]
                    &&& forall|j: int| 0 <= j < b ==> best_dist < #[trigger] dist@[j]
                },
            },
        decreases dist@.len() - i,
    {
        if dist[i] < best_dist {
            best = Some(i);
            best_dist = dist[i];
        }
        i += 1;
    }
    best
}

/// The chosen object after a frame: a click over an object chooses it; otherwise the choice stays.
pub open spec fn next_choice(chosen: Option<usize>, hovered: Option<usize>, clicked: bool) -> Option<usize> {
    if clicked && hovered is Some {
        hovered
    } else {
        chosen
    }
}

/// The chosen object after a frame in which the cursor was over `hovered` and `clicked` tells
/// whether a click came. No event removes a choice.
pub fn select(chosen: Option<usize>, hovered: Option<usize>, clicked: bool) -> (r: Option<usize>)
    ensures
        r == next_choice(chosen, hovered, clicked),
{
    if clicked {
        match hovered {
            Some(h) => Some(h),
            None => chosen,
        }
    } else {
        chosen
    }
}

/// How an object is drawn.
#[derive(Clone, Copy, Debug, PartialEq, Eq, Structural)]
pub enum Highlight {
    Plain,
    Hovered,
    Chosen,
}

/// How the object at `index` is drawn: as chosen, else as under the cursor, else plainly.
pub open spec fn highlight_of(index: usize, hovered: Option<usize>, chosen: Option<usize>) -> Highlight {
    if chosen == Some(index) {
        Highlight::Chosen
    } else if hovered == Some(index) {
        Highlight::Hovered
    } else {
        Highlight::Plain
    }
}

/// How the object at `index` is drawn, given the object under the cursor and the chosen one.
pub fn highlight(index: usize, hovered: Option<usize>, chosen: Option<usize>) -> (r: Highlight)
    ensures
        r == highlight_of(index, hovered, chosen),
{
    match chosen {
        Some(c) if c == index => Highlight::Chosen,
        _ => match hovered {
            Some(h) if h == index => Highlight::Hovered,
            _ => Highlight::Plain,
        },
    }
}

} // verus!
