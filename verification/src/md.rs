//! Splitting a structured front-matter header from a Markdown document.

use vstd::prelude::*;
use vstd::slice::{slice_index_get, slice_subrange};

verus! {

/// The bytes that fence a front-matter header.
pub open spec fn is_fence_at(s: Seq<u8>, pos: int) -> bool {
    s[pos] == 43u8 && s[pos + 1] == 43u8 && s[pos + 2] == 43u8
}

/// Whether the three-byte window at `pos` toggles or keeps the quote state
/// instead of being eligible as a closing fence: its middle byte is a quote
/// character not preceded by a backslash.
pub open spec fn is_quote_window(s: Seq<u8>, pos: int) -> bool {
    (s[pos + 1] == 34u8 || s[pos + 1] == 39u8) && s[pos] != 92u8
}

/// The quote state after processing the window at `pos`: `None` outside
/// quotes, `Some(q)` inside a run opened by the quote byte `q`.
pub open spec fn quote_step(st: Option<u8>, s: Seq<u8>, pos: int) -> Option<u8> {
    if is_quote_window(s, pos) {
        match st {
            Option::None => Option::Some(s[pos + 1]),
            Option::Some(q) => if q == s[pos + 1] {
                Option::None
            } else {
                Option::Some(q)
            },
        }
    } else {
        st
    }
}

/// The position of the first unquoted closing fence at or after `pos`, given
/// the quote state `st` reached so far. Windows run while `pos + 2` is a
/// valid index.
pub open spec fn find_fence(s: Seq<u8>, pos: int, st: Option<u8>) -> Option<int>
    decreases s.len() - pos,
{
    if pos < 0 || pos + 2 >= s.len() {
        Option::None
    } else if is_quote_window(s, pos) {
        find_fence(s, pos + 1, quote_step(st, s, pos))
    } else if st is None && is_fence_at(s, pos) {
        Option::Some(pos)
    } else {
        find_fence(s, pos + 1, st)
    }
}

/// What `separate_md_header` returns: the header bytes between the fences and
/// the remaining content bytes.
pub open spec fn spec_separate_md_header(s: Seq<u8>) -> (Seq<u8>, Seq<u8>) {
    if s.len() < 4 || !is_fence_at(s, 0) {
        (Seq::<u8>::empty(), s)
    } else {
        match find_fence(s, 3, Option::None) {
            Option::Some(pos) => (
                s.subrange(3, pos),
                if s.len() <= pos + 3 {
                    Seq::<u8>::empty()
                } else {
                    s.subrange(pos + 3, s.len() as int)
                },
            ),
            Option::None => (s.subrange(3, s.len() as int), Seq::<u8>::empty()),
        }
    }
}

/// Separate a front-matter header fenced by `+++` from the rest of a Markdown
/// file. A document without a leading fence is all content; a document whose
/// opening fence is never closed outside quotes is all header.
pub fn separate_md_header<'a>(source: &'a [u8]) -> (r: (&'a [u8], &'a [u8]))
    ensures
        (r.0@, r.1@) == spec_separate_md_header(source@),
{
    let n = source.len();
    if n < 4 || *slice_index_get(source, 0) != 43u8 || *slice_index_get(source, 1) != 43u8
        || *slice_index_get(source, 2) != 43u8 {
        let empty = slice_subrange(source, 0, 0);
        return (empty, source);
    }

    let mut pos: usize = 3;
    let mut st: Option<u8> = Option::None;
    while pos < n - 2
        invariant
            3 <= pos <= n,
            n == source@.len(),
            4 <= n,
            is_fence_at(source@, 0),
            find_fence(source@, 3, Option::None) == find_fence(source@, pos as int, st),
        decreases n - pos,
    {
        let b0 = *slice_index_get(source, pos);
        let b1 = *slice_index_get(source, pos + 1);
        let b2 = *slice_index_get(source, pos + 2);
        if (b1 == 34u8 || b1 == 39u8) && b0 != 92u8 {
            st = match st {
                Option::None => Option::Some(b1),
                Option::Some(q) => if q == b1 {
                    Option::None
                } else {
                    Option::Some(q)
                },
            };
        } else if st.is_none() && b0 == 43u8 && b1 == 43u8 && b2 == 43u8 {
            let header = slice_subrange(source, 3, pos);
            let rest = if n <= pos + 3 {
                slice_subrange(source, 0, 0)
            } else {
                slice_subrange(source, pos + 3, n)
            };
            proof {
                assert(find_fence(source@, pos as int, st) == Option::Some(pos as int));
                assert(source@.subrange(0, 0) =~= Seq::<u8>::empty());
            }
            return (header, rest);
        }
        pos = pos + 1;
    }
    let header = slice_subrange(source, 3, n);
    let rest = slice_subrange(source, 0, 0);
    (header, rest)
}

} // verus!
