//! Character-level string helpers: comparisons, the component-wise path
//! order, and the immediate-child test on output paths.

use vstd::prelude::*;
use vstd::string::*;
use crate::types::Order;

verus! {

/// Equality of two string slices.
pub fn strs_eq(a: &str, b: &str) -> (r: bool)
    ensures
        r == (a@ == b@),
{
    String::from_str(a).eq(&String::from_str(b))
}

/// Whether `s[a..b]` spells `t`.
pub fn substr_eq(s: &str, a: usize, b: usize, t: &str) -> (r: bool)
    requires
        a <= b <= s@.len(),
    ensures
        r == (s@.subrange(a as int, b as int) == t@),
{
    strs_eq(s.substring_char(a, b), t)
}

/// The first separator position in `s` at or after `from`; `s.len()` if the
/// rest of the string holds none.
pub open spec fn find_sep(s: Seq<char>, from: int) -> int
    decreases s.len() - from,
{
    if from < 0 || from >= s.len() {
        s.len() as int
    } else if s[from] == '/' {
        from
    } else {
        find_sep(s, from + 1)
    }
}

pub fn find_sep_exec(s: &str, from: usize) -> (r: usize)
    requires
        from <= s@.len(),
    ensures
        r == find_sep(s@, from as int),
        r == sep_or_end(s@, from as int),
        from <= r <= s@.len(),
        r < s@.len() ==> s@[r as int] == '/',
{
    let n = s.unicode_len();
    let mut k = from;
    while k < n
        invariant
            from <= k <= n,
            n == s@.len(),
            find_sep(s@, from as int) == find_sep(s@, k as int),
        decreases n - k,
    {
        if s.get_char(k) == '/' {
            return k;
        }
        k = k + 1;
    }
    n
}

/// Lexicographic comparison of the characters of `a` and `b` from index `k`
/// on, by Unicode scalar value; the shorter string sorts first.
pub open spec fn cmp_chars_from(a: Seq<char>, b: Seq<char>, k: int) -> Order
    decreases a.len() - k,
{
    if k < 0 || (k >= a.len() && k >= b.len()) {
        Order::Equal
    } else if k >= a.len() {
        Order::Less
    } else if k >= b.len() {
        Order::Greater
    } else if a[k] != b[k] {
        if a[k] < b[k] {
            Order::Less
        } else {
            Order::Greater
        }
    } else {
        cmp_chars_from(a, b, k + 1)
    }
}

/// Lexicographic comparison of two character sequences.
pub open spec fn cmp_chars(a: Seq<char>, b: Seq<char>) -> Order {
    cmp_chars_from(a, b, 0)
}

pub fn cmp_chars_exec(a: &str, b: &str) -> (r: Order)
    ensures
        r == cmp_chars(a@, b@),
{
    let an = a.unicode_len();
    let bn = b.unicode_len();
    let mut k: usize = 0;
    while k < an && k < bn
        invariant
            k <= an,
            k <= bn,
            an == a@.len(),
            bn == b@.len(),
            cmp_chars(a@, b@) == cmp_chars_from(a@, b@, k as int),
        decreases an - k,
    {
        let ca = a.get_char(k);
        let cb = b.get_char(k);
        if ca != cb {
            return if ca < cb {
                Order::Less
            } else {
                Order::Greater
            };
        }
        k = k + 1;
    }
    if an == bn {
        Order::Equal
    } else if an < bn {
        Order::Less
    } else {
        Order::Greater
    }
}

/// `find_sep`, clamped into `[from, s.len()]`; the clamp never takes effect,
/// it only makes the bound plain to the termination checker.
pub open spec fn sep_or_end(s: Seq<char>, from: int) -> int {
    let f = find_sep(s, from);
    if f < from {
        from
    } else if f > s.len() {
        s.len() as int
    } else {
        f
    }
}

/// Component-wise comparison of two paths, starting at the segment beginning
/// at `i` in `a` and at `j` in `b`: segments are compared in character
/// order, and a path that is a proper prefix of the other sorts first.
pub open spec fn cmp_paths_from(a: Seq<char>, b: Seq<char>, i: int, j: int) -> Order
    decreases a.len() - i,
{
    if i < 0 || i > a.len() || j < 0 || j > b.len() {
        Order::Equal
    } else {
        let ia = sep_or_end(a, i);
        let ib = sep_or_end(b, j);
        let c = cmp_chars(a.subrange(i, ia), b.subrange(j, ib));
        if c != Order::Equal {
            c
        } else if ia >= a.len() && ib >= b.len() {
            Order::Equal
        } else if ia >= a.len() {
            Order::Less
        } else if ib >= b.len() {
            Order::Greater
        } else {
            cmp_paths_from(a, b, ia + 1, ib + 1)
        }
    }
}

/// Component-wise path comparison: path segments in lexicographic order,
/// an ancestor path before its descendants.
pub open spec fn cmp_paths(a: Seq<char>, b: Seq<char>) -> Order {
    cmp_paths_from(a, b, 0, 0)
}

/// `find_sep` stays within bounds.
proof fn lemma_find_sep_bounds(s: Seq<char>, from: int)
    requires
        0 <= from <= s.len(),
    ensures
        from <= find_sep(s, from) <= s.len(),
    decreases s.len() - from,
{
    if from < s.len() && s[from] != '/' {
        lemma_find_sep_bounds(s, from + 1);
    }
}

fn cmp_paths_rec(a: &str, b: &str, i: usize, j: usize) -> (r: Order)
    requires
        i <= a@.len(),
        j <= b@.len(),
    ensures
        r == cmp_paths_from(a@, b@, i as int, j as int),
    decreases a@.len() - i,
{
    let ia = find_sep_exec(a, i);
    let ib = find_sep_exec(b, j);
    let c = cmp_chars_exec(a.substring_char(i, ia), b.substring_char(j, ib));
    let an = a.unicode_len();
    let bn = b.unicode_len();
    if !matches!(c, Order::Equal) {
        c
    } else if ia >= an && ib >= bn {
        Order::Equal
    } else if ia >= an {
        Order::Less
    } else if ib >= bn {
        Order::Greater
    } else {
        cmp_paths_rec(a, b, ia + 1, ib + 1)
    }
}

pub fn cmp_paths_exec(a: &str, b: &str) -> (r: Order)
    ensures
        r == cmp_paths(a@, b@),
{
    cmp_paths_rec(a, b, 0, 0)
}

/// The index of the last separator in `s`, `-1` if there is none.
pub open spec fn rfind_sep(s: Seq<char>) -> int
    decreases s.len(),
{
    if s.len() == 0 {
        -1
    } else if s.last() == '/' {
        s.len() - 1
    } else {
        rfind_sep(s.drop_last())
    }
}

/// The part of `s` after its last separator: the whole of `s` if it has none.
pub open spec fn last_seg(s: Seq<char>) -> Seq<char> {
    s.subrange(rfind_sep(s) + 1, s.len() as int)
}

/// The part of `s` before its last separator: empty if it has none.
pub open spec fn dirname(s: Seq<char>) -> Seq<char> {
    if rfind_sep(s) < 0 {
        s.subrange(0, 0)
    } else {
        s.subrange(0, rfind_sep(s))
    }
}

proof fn lemma_rfind_sep_bounds(s: Seq<char>)
    ensures
        -1 <= rfind_sep(s) < s.len(),
        rfind_sep(s) >= 0 ==> s[rfind_sep(s)] == '/',
        forall|k: int| rfind_sep(s) < k < s.len() ==> s[k] != '/',
    decreases s.len(),
{
    if s.len() > 0 && s.last() != '/' {
        lemma_rfind_sep_bounds(s.drop_last());
        assert(forall|k: int| 0 <= k < s.len() - 1 ==> s[k] == s.drop_last()[k]);
    }
}

/// The position of the last separator of `s`, if any.
pub fn rfind_sep_exec(s: &str) -> (r: Option<usize>)
    ensures
        match r {
            Option::Some(k) => k == rfind_sep(s@) && k < s@.len(),
            Option::None => rfind_sep(s@) == -1,
        },
{
    let n = s.unicode_len();
    let mut k = n;
    proof {
        lemma_rfind_sep_bounds(s@);
    }
    while k > 0
        invariant
            k <= n,
            n == s@.len(),
            rfind_sep(s@) < k,
            rfind_sep(s@) >= 0 ==> s@[rfind_sep(s@)] == '/',
            forall|m: int| rfind_sep(s@) < m < s@.len() ==> s@[m] != '/',
        decreases k,
    {
        if s.get_char(k - 1) == '/' {
            return Option::Some(k - 1);
        }
        k = k - 1;
    }
    Option::None
}

/// The part of `s` after its last separator.
pub fn last_seg_exec(s: &str) -> (r: String)
    ensures
        r@ == last_seg(s@),
{
    let n = s.unicode_len();
    match rfind_sep_exec(s) {
        Option::Some(k) => String::from_str(s.substring_char(k + 1, n)),
        Option::None => String::from_str(s),
    }
}

/// The part of `s` before its last separator.
pub fn dirname_exec(s: &str) -> (r: String)
    ensures
        r@ == dirname(s@),
{
    match rfind_sep_exec(s) {
        Option::Some(k) => String::from_str(s.substring_char(0, k)),
        Option::None => String::new(),
    }
}

/// The immediate-child test of the external reconstruction: after dropping
/// one trailing separator, `p` must end in `slug`, begin with `sect_path`,
/// and hold only separators in between.
pub open spec fn spec_is_subpage(p: Seq<char>, sect_path: Seq<char>, slug: Seq<char>) -> bool {
    let te = if p.len() > 0 && p.last() == '/' {
        p.len() - 1
    } else {
        p.len() as int
    };
    &&& te >= slug.len()
    &&& p.subrange(te - slug.len(), te) == slug
    &&& te - slug.len() >= sect_path.len()
    &&& p.subrange(0, sect_path.len() as int) == sect_path
    &&& forall|k: int| sect_path.len() <= k < te - slug.len() ==> p[k] == '/'
}

/// Does the page at output path `p` sit directly inside the section with
/// output path `sect_path` and slug `slug`?
pub fn is_subpage(p: &str, sect_path: &str, slug: &str) -> (r: bool)
    ensures
        r == spec_is_subpage(p@, sect_path@, slug@),
{
    let n = p.unicode_len();
    let te: usize = if n > 0 && p.get_char(n - 1) == '/' {
        n - 1
    } else {
        n
    };
    let sl = slug.unicode_len();
    let spl = sect_path.unicode_len();
    if te < sl {
        return false;
    }
    if !substr_eq(p, te - sl, te, slug) {
        return false;
    }
    if te - sl < spl {
        return false;
    }
    if !substr_eq(p, 0, spl, sect_path) {
        return false;
    }
    let mut k = spl;
    while k < te - sl
        invariant
            spl <= k <= te - sl <= te <= n,
            n == p@.len(),
            sl == slug@.len(),
            spl == sect_path@.len(),
            te as int == if p@.len() > 0 && p@.last() == '/' {
                p@.len() - 1
            } else {
                p@.len() as int
            },
            p@.subrange(te - sl, te as int) == slug@,
            p@.subrange(0, spl as int) == sect_path@,
            forall|m: int| spl <= m < k ==> p@[m] == '/',
        decreases te - sl - k,
    {
        if p.get_char(k) != '/' {
            return false;
        }
        k = k + 1;
    }
    true
}

} // verus!
