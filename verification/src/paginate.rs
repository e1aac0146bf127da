//! Splitting a range of pages into consecutively numbered output units, and
//! the circular linking of gallery pictures.

use vstd::prelude::*;
use crate::types::Span;

verus! {

/// Position of one output unit within a paginated range, 1-based.
#[derive(Clone, Copy, Debug, PartialEq, Eq, Structural)]
pub struct Pagination {
    pub previous: Option<usize>,
    pub next: Option<usize>,
    pub current: usize,
    pub length: usize,
}

impl Pagination {
    /// The descriptor of unit `current` out of `length`: `previous` and
    /// `next` are the neighbouring unit numbers, absent at the ends.
    pub fn new(length: usize, current: usize) -> (r: Pagination)
        requires
            1 <= current <= length,
        ensures
            r.length == length,
            r.current == current,
            r.previous == if current > 1 { Option::Some((current - 1) as usize) } else {
                Option::<usize>::None
            },
            r.next == if current < length { Option::Some((current + 1) as usize) } else {
                Option::<usize>::None
            },
    {
        Pagination {
            length,
            current,
            previous: if current > 1 { Option::Some(current - 1) } else { Option::None },
            next: if current < length { Option::Some(current + 1) } else { Option::None },
        }
    }
}

/// What it means for `units` to paginate `[start, end)` by `b`: the spans
/// chain from `start` to `end`, every unit but the last is exactly `b` long,
/// and unit `k` carries the 1-based descriptor `k + 1` of `units.len()`.
pub open spec fn paginates(units: Seq<(Span, Pagination)>, start: int, end: int, b: int) -> bool {
    let len = units.len() as int;
    &&& len >= 1
    &&& units[0].0.start == start
    &&& units[len - 1].0.end == end
    &&& forall|k: int| 0 <= k < len - 1 ==> (#[trigger] units[k + 1].0).start == units[k].0.end
    &&& forall|k: int|
        0 <= k < len ==> ((#[trigger] units[k].0).start < units[k].0.end <= end
            && units[k].0.end == if end - units[k].0.start > b {
            units[k].0.start + b
        } else {
            end
        })
    &&& forall|k: int|
        0 <= k < len ==> (#[trigger] units[k].1) == (Pagination {
            length: len as usize,
            current: (k + 1) as usize,
            previous: if k + 1 > 1 { Option::Some(k as usize) } else { Option::<usize>::None },
            next: if k + 1 < len { Option::Some((k + 2) as usize) } else {
                Option::<usize>::None
            },
        })
}

/// Split the page range `[start, end)` into consecutive units of `by` pages,
/// the final unit taking the remainder. A `by` larger than the range behaves
/// as the range length, so exactly one unit comes out. The number of units is
/// the rounded-up quotient of the range length by the clamped page size.
pub fn paginate_spans(start: usize, end: usize, by: usize) -> (r: Vec<(Span, Pagination)>)
    requires
        start < end,
        by >= 1,
    ensures
        ({
            let count = end - start;
            let b = if by < count { by as int } else { count };
            &&& paginates(r@, start as int, end as int, b)
            &&& (r@.len() - 1) * b < count <= r@.len() * b
            &&& r@.len() == (count + b - 1) / b
        }),
{
    let count = end - start;
    let b: usize = if by < count { by } else { count };
    let ghost bi = b as int;
    let mut spans: Vec<Span> = Vec::new();
    let mut first = start;
    proof {
        assert(spans@.len() == 0);
        assert(spans@.len() * bi == 0) by (nonlinear_arith)
            requires spans@.len() == 0;
    }
    while first < end
        invariant
            start <= first <= end,
            start < end,
            1 <= b <= end - start,
            bi == b as int,
            first < end ==> first - start == spans@.len() * bi,
            spans@.len() == 0 ==> first == start,
            spans@.len() > 0 ==> (spans@.len() - 1) * bi < first - start <= spans@.len() * bi,
            spans@.len() > 0 ==> spans@[0].start == start,
            spans@.len() > 0 ==> spans@[spans@.len() - 1].end == first,
            forall|k: int| 0 <= k < spans@.len() - 1
                ==> (#[trigger] spans@[k + 1]).start == spans@[k].end,
            forall|k: int| 0 <= k < spans@.len()
                ==> ((#[trigger] spans@[k]).start < spans@[k].end <= end
                    && spans@[k].end == if end - spans@[k].start > bi {
                    spans@[k].start + bi
                } else {
                    end as int
                }),
        decreases end - first,
    {
        let ghost k = spans@.len() as int;
        let unit_end: usize = if end - first > b { first + b } else { end };
        spans.push(Span { start: first, end: unit_end });
        proof {
            assert((k + 1) * bi == k * bi + bi) by (nonlinear_arith);
        }
        first = unit_end;
    }
    let len = spans.len();
    let mut r: Vec<(Span, Pagination)> = Vec::new();
    let mut k: usize = 0;
    while k < len
        invariant
            r@.len() == k <= len,
            len == spans@.len(),
            forall|j: int| 0 <= j < k ==> (#[trigger] r@[j]).0 == spans@[j],
            forall|j: int|
                0 <= j < k ==> (#[trigger] r@[j]).1 == (Pagination {
                    length: len,
                    current: (j + 1) as usize,
                    previous: if j + 1 > 1 { Option::Some(j as usize) } else {
                        Option::<usize>::None
                    },
                    next: if j + 1 < len { Option::Some((j + 2) as usize) } else {
                        Option::<usize>::None
                    },
                }),
        decreases len - k,
    {
        let sp = spans[k];
        r.push((sp, Pagination::new(len, k + 1)));
        k = k + 1;
    }
    proof {
        let count = end - start;
        let b = if by < count {
            by as int
        } else {
            count as int
        };
        let nu = r@.len() as int;
        assert(nu == (count + b - 1) / b) by (nonlinear_arith)
            requires
                (nu - 1) * b < count <= nu * b,
                b >= 1,
        ;
    }
    r
}

/// The circular previous/next links of `n` gallery pictures: picture 0's
/// previous is picture `n - 1` and picture `n - 1`'s next is picture 0, so
/// the links form a closed ring with no terminal state.
pub fn gallery_ring(n: usize) -> (r: Vec<(usize, usize)>)
    requires
        n >= 1,
    ensures
        r@.len() == n,
        forall|i: int|
            0 <= i < n ==> (#[trigger] r@[i]).0 == if i == 0 { n - 1 } else { i - 1 },
        forall|i: int|
            0 <= i < n ==> (#[trigger] r@[i]).1 == if i + 1 == n { 0int } else { i + 1 },
{
    let mut r: Vec<(usize, usize)> = Vec::new();
    let last = n - 1;
    let mut i: usize = 0;
    while i < n
        invariant
            r@.len() == i <= n,
            1 <= n,
            last == n - 1,
            forall|j: int|
                0 <= j < i ==> (#[trigger] r@[j]).0 == if j == 0 { n - 1 } else { j - 1 },
            forall|j: int|
                0 <= j < i ==> (#[trigger] r@[j]).1 == if j + 1 == n { 0int } else { j + 1 },
        decreases n - i,
    {
        let prev = if i == 0 { last } else { i - 1 };
        let nxt = if i == last { 0 } else { i + 1 };
        r.push((prev, nxt));
        i = i + 1;
    }
    r
}

} // verus!
