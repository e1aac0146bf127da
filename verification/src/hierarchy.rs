//! Building the page hierarchy: sorting each section's children, linking
//! previous/next siblings, assigning identifiers — from the scanner's ranges
//! or re-derived from an externally supplied flat sorted list.

use vstd::prelude::*;
use crate::page::Page;
use crate::types::{spec_date_le, DateTime, Span};

verus! {

/// Everything of a page except its hierarchy links (`parent`, `previous`,
/// `next`, `id`): what sorting moves around and link rewriting leaves alone.
pub struct PageCore {
    pub title: Seq<char>,
    pub slug: Seq<char>,
    pub path: Seq<char>,
    pub alternative_paths: Seq<Seq<char>>,
    pub weight: i64,
    pub template: Seq<char>,
    pub page_template: Seq<char>,
    pub section_template: Seq<char>,
    pub gallery_template: Seq<char>,
    pub paginate_by: usize,
    pub image: Seq<char>,
    pub summary: Seq<char>,
    pub content: Seq<char>,
    pub date: Option<DateTime>,
    pub sort_by_weight: bool,
    pub is_section: bool,
    pub hidden: bool,
    pub pages: Span,
    pub subsections: Span,
    pub nonstandard_path: bool,
    pub pictures: Seq<(Seq<char>, Seq<char>, Seq<char>, Seq<char>, Option<DateTime>)>,
    pub taxonomies: Seq<(Seq<char>, Seq<Seq<char>>)>,
    pub plugins: Seq<Seq<char>>,
}

/// The core of one page.
pub open spec fn page_core(p: Page) -> PageCore {
    PageCore {
        title: p.title@,
        slug: p.slug@,
        path: p.path.0@,
        alternative_paths: p.alternative_paths.deep_view(),
        weight: p.weight,
        template: p.template@,
        page_template: p.page_template@,
        section_template: p.section_template@,
        gallery_template: p.gallery_template@,
        paginate_by: p.paginate_by,
        image: p.image@,
        summary: p.summary@,
        content: p.content@,
        date: p.date,
        sort_by_weight: p.sort_by_weight,
        is_section: p.is_section,
        hidden: p.hidden,
        pages: p.pages,
        subsections: p.subsections,
        nonstandard_path: p.nonstandard_path,
        pictures: p.pictures@.map_values(
            |q: crate::page::Picture| (q.alt@, q.caption@, q.file@, q.pid@, q.taken),
        ),
        taxonomies: p.taxonomies@.map_values(
            |t: crate::page::TagAssignment| (t.name@, t.values.deep_view()),
        ),
        plugins: p.plugins.deep_view(),
    }
}

/// The cores of a run of pages.
pub open spec fn cores(s: Seq<Page>) -> Seq<PageCore> {
    s.map_values(|p: Page| page_core(p))
}

/// How the children of one section are ordered.
#[derive(Clone, Copy, Debug, PartialEq, Eq, Structural)]
pub enum SortMode {
    /// By weight, ascending.
    ByWeight,
    /// By date, descending; pages without a date sort last.
    ByDate,
    /// Keep the order the pages came in.
    Keep,
}

/// The order `mode` asks for: does `a` belong no later than `b`?
pub open spec fn page_le(mode: SortMode, a: Page, b: Page) -> bool {
    match mode {
        SortMode::ByWeight => a.weight <= b.weight,
        SortMode::ByDate => spec_date_le(b.date, a.date),
        SortMode::Keep => true,
    }
}

fn page_le_exec(mode: SortMode, a: &Page, b: &Page) -> (r: bool)
    ensures
        r == page_le(mode, *a, *b),
{
    match mode {
        SortMode::ByWeight => a.weight <= b.weight,
        SortMode::ByDate => crate::types::date_le(&b.date, &a.date),
        SortMode::Keep => true,
    }
}

/// `s` is ordered by `mode` between `lo` and `hi`.
pub open spec fn sorted_in(s: Seq<Page>, lo: int, hi: int, mode: SortMode) -> bool {
    forall|a: int, b: int| lo <= a < b < hi ==> page_le(mode, #[trigger] s[a], #[trigger] s[b])
}

/// `page_le` is total.
proof fn lemma_page_le_total(mode: SortMode, a: Page, b: Page)
    ensures
        page_le(mode, a, b) || page_le(mode, b, a),
{
}

/// `page_le` is transitive.
proof fn lemma_page_le_trans(mode: SortMode, a: Page, b: Page, c: Page)
    ensures
        page_le(mode, a, b) && page_le(mode, b, c) ==> page_le(mode, a, c),
{
}

/// `perm` maps `[lo, hi)` onto itself, one-to-one, and is the identity
/// outside it.
pub open spec fn is_perm_on(perm: Seq<int>, len: int, lo: int, hi: int) -> bool {
    &&& perm.len() == len
    &&& forall|k: int| lo <= k < hi ==> lo <= #[trigger] perm[k] < hi
    &&& forall|k: int| (0 <= k < lo || hi <= k < len) ==> #[trigger] perm[k] == k
    &&& forall|k1: int, k2: int|
        0 <= k1 < k2 < len ==> #[trigger] perm[k1] != #[trigger] perm[k2]
}

/// The identity permutation.
pub open spec fn id_perm(len: int) -> Seq<int> {
    Seq::new(len as nat, |k: int| k)
}

/// Sort `v[lo..hi]` in place by `mode`. Everything outside `[lo, hi)` stays
/// put; inside, the same pages reappear (as a permutation of the old run),
/// now in order.
fn sort_span(v: &mut Vec<Page>, lo: usize, hi: usize, mode: SortMode) -> (p: Ghost<Seq<int>>)
    requires
        lo <= hi <= old(v)@.len(),
    ensures
        final(v)@.len() == old(v)@.len(),
        is_perm_on(p@, old(v)@.len() as int, lo as int, hi as int),
        forall|k: int| 0 <= k < old(v)@.len() ==> #[trigger] final(v)@[k] == old(v)@[p@[k]],
        forall|k: int|
            (0 <= k < lo || hi <= k < old(v)@.len()) ==> #[trigger] final(v)@[k] == old(v)@[k],
        sorted_in(final(v)@, lo as int, hi as int, mode),
        cores(final(v)@).to_multiset() == cores(old(v)@).to_multiset(),
{
    let ghost orig = v@;
    let ghost n = v@.len() as int;
    let mut perm: Ghost<Seq<int>> = Ghost(id_perm(n));
    if matches!(mode, SortMode::Keep) || hi <= lo {
        proof {
            assert forall|k: int| 0 <= k < cores(v@).len() implies #[trigger] cores(v@)[k]
                == cores(orig)[perm@[k]] by {}
            lemma_apply_perm_multiset(cores(orig), cores(v@), perm@);
        }
        return perm;
    }
    let mut i = lo + 1;
    while i < hi
        invariant
            lo < i <= hi <= v@.len(),
            v@.len() == n,
            orig.len() == n,
            is_perm_on(perm@, n, lo as int, hi as int),
            forall|k: int| 0 <= k < n ==> #[trigger] v@[k] == orig[perm@[k]],
            sorted_in(v@, lo as int, i as int, mode),
            !(mode is Keep),
        decreases hi - i,
    {
        let mut j = i;
        while j > lo && !page_le_exec(mode, &v[j - 1], &v[i])
            invariant
                lo <= j <= i < v@.len(),
                forall|k: int| j <= k < i ==> !page_le(mode, #[trigger] v@[k], v@[i as int]),
            decreases j,
        {
            j = j - 1;
        }
        if j < i {
            let ghost before = v@;
            let x = v.remove(i);
            v.insert(j, x);
            let ghost after = v@;
            let ghost permx = perm@.remove(i as int).insert(j as int, perm@[i as int]);
            proof {
                assert(after =~= before.remove(i as int).insert(j as int, before[i as int]));
                lemma_remove_insert_facts(before, i as int, j as int);
                lemma_remove_insert_facts_int(perm@, i as int, j as int);
                // the permutation still tracks the array
                assert forall|k: int| 0 <= k < n implies #[trigger] after[k] == orig[permx[k]] by {
                    if k < j || k > i {
                        assert(after[k] == before[k]);
                        assert(permx[k] == perm@.remove(i as int).insert(
                            j as int,
                            perm@[i as int],
                        )[k]);
                    }
                }
                // sortedness of the grown prefix
                assert forall|a: int, b: int|
                    lo <= a < b < i + 1 implies page_le(mode, after[a], after[b]) by {
                    lemma_sorted_after_insert(before, after, lo as int, i as int, j as int, mode, a, b);
                }
            }
            perm = Ghost(permx);
        } else {
            proof {
                assert forall|a: int, b: int|
                    lo <= a < b < i + 1 implies page_le(mode, v@[a], v@[b]) by {
                    if b == i {
                        if a < i - 1 {
                            assert(page_le(mode, v@[a], v@[i - 1]));
                            lemma_page_le_trans(mode, v@[a], v@[i - 1], v@[b]);
                        }
                    }
                }
            }
        }
        i = i + 1;
    }
    proof {
        assert forall|k: int| 0 <= k < cores(v@).len() implies #[trigger] cores(v@)[k]
            == cores(orig)[perm@[k]] by {}
        lemma_apply_perm_multiset(cores(orig), cores(v@), perm@);
    }
    perm
}

/// After `remove(i)` and `insert(j, s[i])` with `j <= i`, positions below
/// `j` and above `i` are untouched, `j` holds the moved element, and the
/// positions between shift up by one.
proof fn lemma_remove_insert_facts(s: Seq<Page>, i: int, j: int)
    requires
        0 <= j <= i < s.len(),
    ensures
        ({
            let t = s.remove(i).insert(j, s[i]);
            &&& t.len() == s.len()
            &&& forall|k: int| (0 <= k < j || i < k < s.len()) ==> #[trigger] t[k] == s[k]
            &&& t[j] == s[i]
            &&& forall|k: int| j < k <= i ==> #[trigger] t[k] == s[k - 1]
        }),
{
}

/// The same index bookkeeping for an integer sequence.
proof fn lemma_remove_insert_facts_int(s: Seq<int>, i: int, j: int)
    requires
        0 <= j <= i < s.len(),
    ensures
        ({
            let t = s.remove(i).insert(j, s[i]);
            &&& t.len() == s.len()
            &&& forall|k: int| (0 <= k < j || i < k < s.len()) ==> #[trigger] t[k] == s[k]
            &&& t[j] == s[i]
            &&& forall|k: int| j < k <= i ==> #[trigger] t[k] == s[k - 1]
        }),
{
}

/// One insertion-sort step keeps the prefix sorted: `before` was sorted on
/// `[lo, i)`, the element at `i` was moved down to `j`, everything it jumped
/// over was greater than it, and the element above `j` (if any) was not.
proof fn lemma_sorted_after_insert(
    before: Seq<Page>,
    after: Seq<Page>,
    lo: int,
    i: int,
    j: int,
    mode: SortMode,
    a: int,
    b: int,
)
    requires
        0 <= lo <= j <= i < before.len(),
        after == before.remove(i).insert(j, before[i]),
        sorted_in(before, lo, i, mode),
        forall|k: int| j <= k < i ==> !page_le(mode, #[trigger] before[k], before[i]),
        j > lo ==> page_le(mode, before[j - 1], before[i]),
        lo <= a < b < i + 1,
    ensures
        page_le(mode, after[a], after[b]),
{
    lemma_remove_insert_facts(before, i, j);
    let x = before[i];
    assert forall|k: int| j <= k < i implies page_le(mode, x, #[trigger] before[k]) by {
        lemma_page_le_total(mode, before[k], x);
    }
    if a == j {
        if b > j {
            assert(after[b] == before[b - 1]);
            assert(page_le(mode, x, before[b - 1]));
        }
    } else if a < j {
        assert(after[a] == before[a]);
        if b < j {
            assert(after[b] == before[b]);
        } else if b == j {
            if j > lo {
                assert(page_le(mode, before[a], before[j - 1])
                    || a == j - 1) by {
                }
                if a < j - 1 {
                    lemma_page_le_trans(mode, before[a], before[j - 1], x);
                } else {
                }
            }
        } else {
            assert(after[b] == before[b - 1]);
        }
    } else {
        // a > j
        assert(after[a] == before[a - 1]);
        assert(after[b] == before[b - 1]);
    }
}

/// Rearranging a sequence by a permutation keeps its multiset.
proof fn lemma_apply_perm_multiset<A>(orig: Seq<A>, cur: Seq<A>, perm: Seq<int>)
    requires
        orig.len() == cur.len(),
        perm.len() == orig.len(),
        forall|k: int| 0 <= k < perm.len() ==> 0 <= #[trigger] perm[k] < orig.len(),
        forall|k1: int, k2: int|
            0 <= k1 < k2 < perm.len() ==> #[trigger] perm[k1] != #[trigger] perm[k2],
        forall|k: int| 0 <= k < cur.len() ==> #[trigger] cur[k] == orig[perm[k]],
    ensures
        cur.to_multiset() == orig.to_multiset(),
    decreases orig.len(),
{
    broadcast use vstd::seq_lib::group_to_multiset_ensures;

    if orig.len() == 0 {
        assert(cur =~= orig);
    } else {
        let n = orig.len() as int;
        // where does the last element of orig sit in cur?
        assert(exists|w: int| 0 <= w < n && #[trigger] perm[w] == n - 1) by {
            lemma_perm_onto(perm, n - 1);
        }
        let w = choose|w: int| 0 <= w < n && #[trigger] perm[w] == n - 1;
        let cur2 = cur.remove(w);
        let orig2 = orig.drop_last();
        let perm2 = perm.remove(w);
        assert forall|k: int| 0 <= k < perm2.len() implies 0 <= #[trigger] perm2[k] < n - 1 by {
            if k < w {
                assert(perm2[k] == perm[k]);
                assert(perm[k] != n - 1);
            } else {
                assert(perm2[k] == perm[k + 1]);
                assert(perm[k + 1] != n - 1);
            }
        }
        assert forall|k1: int, k2: int|
            0 <= k1 < k2 < perm2.len() implies #[trigger] perm2[k1] != #[trigger] perm2[k2] by {
            let m1 = if k1 < w { k1 } else { k1 + 1 };
            let m2 = if k2 < w { k2 } else { k2 + 1 };
            assert(perm2[k1] == perm[m1] && perm2[k2] == perm[m2]);
        }
        assert forall|k: int| 0 <= k < cur2.len() implies #[trigger] cur2[k] == orig2[perm2[k]] by {
            if k < w {
                assert(cur2[k] == cur[k]);
            } else {
                assert(cur2[k] == cur[k + 1]);
            }
        }
        lemma_apply_perm_multiset(orig2, cur2, perm2);
        assert(orig2 =~= orig.remove(n - 1));
        assert(cur[w] == orig[n - 1]);
        assert(cur.remove(w).to_multiset() =~= cur.to_multiset().remove(orig[n - 1]));
        assert(orig.remove(n - 1).to_multiset() =~= orig.to_multiset().remove(orig[n - 1]));
        assert(cur.to_multiset().contains(orig[n - 1]));
        assert(orig.to_multiset().contains(orig[n - 1]));
        assert(cur.to_multiset() =~= orig.to_multiset()) by {
            let mc = cur.to_multiset();
            let mo = orig.to_multiset();
            let e = orig[n - 1];
            assert(mc.remove(e) == mo.remove(e));
            assert forall|x: A| mc.count(x) == mo.count(x) by {
                if x == e {
                    assert(mc.remove(e).count(e) == mc.count(e) - 1);
                    assert(mo.remove(e).count(e) == mo.count(e) - 1);
                } else {
                    assert(mc.remove(e).count(x) == mc.count(x));
                    assert(mo.remove(e).count(x) == mo.count(x));
                }
            }
        }
    }
}

/// A one-to-one map of `[0, len)` into itself hits every value.
proof fn lemma_perm_onto(perm: Seq<int>, target: int)
    requires
        forall|k: int| 0 <= k < perm.len() ==> 0 <= #[trigger] perm[k] < perm.len(),
        forall|k1: int, k2: int|
            0 <= k1 < k2 < perm.len() ==> #[trigger] perm[k1] != #[trigger] perm[k2],
        0 <= target < perm.len(),
    ensures
        exists|w: int| 0 <= w < perm.len() && #[trigger] perm[w] == target,
{
    let n = perm.len() as int;
    assert(perm.no_duplicates()) by {
        assert forall|i: int, j: int|
            0 <= i < perm.len() && 0 <= j < perm.len() && i != j implies perm[i] != perm[j] by {
            if i < j {
                assert(perm[i] != perm[j]);
            } else {
                assert(perm[j] != perm[i]);
            }
        }
    }
    perm.unique_seq_to_set();
    let s = perm.to_set();
    let r = vstd::set_lib::set_int_range(0, n);
    vstd::set_lib::lemma_int_range(0, n);
    assert forall|x: int| s.contains(x) implies r.contains(x) by {
        assert(perm.contains(x));
        let w = choose|w: int| 0 <= w < perm.len() && perm[w] == x;
        assert(0 <= perm[w] < n);
    }
    if !s.contains(target) {
        let r2 = r.remove(target);
        assert(s.subset_of(r2));
        assert(r2.len() == n - 1);
        vstd::set_lib::lemma_len_subset(s, r2);
    }
    assert(s.contains(target));
    assert(perm.contains(target));
}

/// The span lies beyond `i` and within an array of length `n`.
pub open spec fn span_ok(sp: Span, i: int, n: int) -> bool {
    sp.start <= sp.end <= n && (sp.start < sp.end ==> i < sp.start)
}

/// The well-formedness of the child ranges in a flat page array, as the
/// scanner produces them: every range lies strictly after its owner, no two
/// ranges overlap, and the ranges of a child begin only after both ranges of
/// its owner have ended.
pub open spec fn spans_wf(s: Seq<Page>) -> bool {
    let n = s.len() as int;
    &&& forall|i: int|
        0 <= i < n ==> span_ok((#[trigger] s[i]).pages, i, n) && span_ok(s[i].subsections, i, n)
    &&& forall|i1: int, i2: int, j: int|
        0 <= i1 < n && 0 <= i2 < n && (#[trigger] s[i1].pages.holds(j)) && (
        #[trigger] s[i2].pages.holds(j)) ==> i1 == i2
    &&& forall|i1: int, i2: int, j: int|
        0 <= i1 < n && 0 <= i2 < n && (#[trigger] s[i1].subsections.holds(j)) && (
        #[trigger] s[i2].subsections.holds(j)) ==> i1 == i2
    &&& forall|i1: int, i2: int, j: int|
        0 <= i1 < n && 0 <= i2 < n ==> !((#[trigger] s[i1].pages.holds(j)) && (
        #[trigger] s[i2].subsections.holds(j)))
    &&& forall|i: int, j: int|
        0 <= i < n && (#[trigger] s[i].pages.holds(j)) ==> spans_after(s[i], s[j])
    &&& forall|i: int, j: int|
        0 <= i < n && (#[trigger] s[i].subsections.holds(j)) ==> spans_after(s[i], s[j])
}

/// The ranges of `member` begin only after both ranges of `owner` end.
pub open spec fn spans_after(owner: Page, member: Page) -> bool {
    &&& (member.pages.start < member.pages.end ==> member.pages.start >= owner.pages.end
        && member.pages.start >= owner.subsections.end)
    &&& (member.subsections.start < member.subsections.end ==> member.subsections.start
        >= owner.pages.end && member.subsections.start >= owner.subsections.end)
}

/// A bijection of `[0, len)` that moves positions only within `a` and
/// within `b`.
pub open spec fn is_perm_two(perm: Seq<int>, len: int, a: Span, b: Span) -> bool {
    &&& perm.len() == len
    &&& forall|k: int| a.holds(k) ==> a.holds(#[trigger] perm[k])
    &&& forall|k: int| b.holds(k) ==> b.holds(#[trigger] perm[k])
    &&& forall|k: int| 0 <= k < len && !a.holds(k) && !b.holds(k) ==> #[trigger] perm[k] == k
    &&& forall|k1: int, k2: int|
        0 <= k1 < k2 < len ==> #[trigger] perm[k1] != #[trigger] perm[k2]
}

/// Overwrite the links of `v[lo..hi]`: every one of those pages gets `par`
/// as its parent and its neighbours as previous/next, the first and last
/// getting the sentinel `0` at the open end.
fn link_span(v: &mut Vec<Page>, lo: usize, hi: usize, par: usize)
    requires
        lo <= hi <= old(v)@.len(),
    ensures
        final(v)@.len() == old(v)@.len(),
        forall|k: int|
            (0 <= k < lo || hi <= k < old(v)@.len()) ==> #[trigger] final(v)@[k] == old(v)@[k],
        forall|k: int|
            lo <= k < hi ==> (page_core(#[trigger] final(v)@[k]) == page_core(old(v)@[k])
                && final(v)@[k].id == old(v)@[k].id && final(v)@[k].parent == par
                && final(v)@[k].previous == (if k == lo {
                0int
            } else {
                k - 1
            }) && final(v)@[k].next == (if k == hi - 1 {
                0int
            } else {
                k + 1
            })),
{
    let mut k = lo;
    while k < hi
        invariant
            lo <= k <= hi <= v@.len(),
            v@.len() == old(v)@.len(),
            forall|m: int|
                (0 <= m < lo || k <= m < old(v)@.len()) ==> #[trigger] v@[m] == old(v)@[m],
            forall|m: int|
                lo <= m < k ==> (page_core(#[trigger] v@[m]) == page_core(old(v)@[m])
                    && v@[m].id == old(v)@[m].id && v@[m].parent == par && v@[m].previous == (
                if m == lo {
                    0int
                } else {
                    m - 1
                }) && v@[m].next == (if m == hi - 1 {
                    0int
                } else {
                    m + 1
                })),
        decreases hi - k,
    {
        let ghost before = v@;
        let mut x = v.remove(k);
        x.parent = par;
        x.previous = if k == lo {
            0
        } else {
            k - 1
        };
        x.next = if k + 1 == hi {
            0
        } else {
            k + 1
        };
        v.insert(k, x);
        proof {
            assert(v@ =~= before.update(k as int, v@[k as int]));
        }
        k = k + 1;
    }
}

/// The page at `k` carries the links the finished hierarchy gives a member
/// of the child range `sp` owned by the section at `par`: its parent index,
/// and previous/next pointing at its neighbours with the sentinel `0` at the
/// range's ends.
pub open spec fn linked_at(s: Seq<Page>, k: int, par: int, sp: Span) -> bool {
    &&& s[k].parent == par
    &&& s[k].previous == (if k == sp.start {
        0int
    } else {
        k - 1
    })
    &&& s[k].next == (if k == sp.end - 1 {
        0int
    } else {
        k + 1
    })
}

/// Sort both child ranges of the section at `i` by `mode`, then rewrite the
/// links of every child. Everything outside the two ranges stays put; inside
/// them the same pages reappear in order, their parent now `i` and their
/// previous/next chaining through the range.
fn fix_section(v: &mut Vec<Page>, i: usize, mode: SortMode) -> (p: Ghost<Seq<int>>)
    requires
        i < old(v)@.len(),
        span_ok(old(v)@[i as int].pages, i as int, old(v)@.len() as int),
        span_ok(old(v)@[i as int].subsections, i as int, old(v)@.len() as int),
        forall|j: int|
            !(old(v)@[i as int].pages.holds(j) && old(v)@[i as int].subsections.holds(j)),
    ensures
        ({
            let n = old(v)@.len() as int;
            let pg = old(v)@[i as int].pages;
            let sec = old(v)@[i as int].subsections;
            &&& final(v)@.len() == n
            &&& is_perm_two(p@, n, pg, sec)
            &&& forall|k: int|
                0 <= k < n && !pg.holds(k) && !sec.holds(k) ==> #[trigger] final(v)@[k] == old(
                    v,
                )@[k]
            &&& forall|k: int|
                0 <= k < n ==> page_core(#[trigger] final(v)@[k]) == page_core(old(v)@[p@[k]])
            &&& forall|k: int| 0 <= k < n ==> #[trigger] final(v)@[k].id == old(v)@[p@[k]].id
            &&& sorted_in(final(v)@, pg.start as int, pg.end as int, mode)
            &&& sorted_in(final(v)@, sec.start as int, sec.end as int, mode)
            &&& forall|k: int| pg.holds(k) ==> linked_at(final(v)@, k, i as int, pg)
            &&& forall|k: int| sec.holds(k) ==> linked_at(final(v)@, k, i as int, sec)
            &&& cores(final(v)@.subrange(pg.start as int, pg.end as int)).to_multiset() == cores(
                old(v)@.subrange(pg.start as int, pg.end as int),
            ).to_multiset()
            &&& cores(final(v)@.subrange(sec.start as int, sec.end as int)).to_multiset()
                == cores(old(v)@.subrange(sec.start as int, sec.end as int)).to_multiset()
        }),
{
    let ghost v0 = old(v)@;
    let ghost n = old(v)@.len() as int;
    let pg = v[i].pages;
    let sec = v[i].subsections;
    let Ghost(p1) = sort_span(v, pg.start, pg.end, mode);
    let ghost v1 = v@;
    let Ghost(p2) = sort_span(v, sec.start, sec.end, mode);
    let ghost v2 = v@;
    link_span(v, pg.start, pg.end, i);
    let ghost v3 = v@;
    link_span(v, sec.start, sec.end, i);
    let ghost v4 = v@;
    let ghost comb = Seq::new(n as nat, |k: int| p1[p2[k]]);
    proof {
        // the composed map is a two-range permutation
        assert forall|k: int| pg.holds(k) implies pg.holds(#[trigger] comb[k]) by {
            assert(!sec.holds(k));
            assert(p2[k] == k);
        }
        assert forall|k: int| sec.holds(k) implies sec.holds(#[trigger] comb[k]) by {
            assert(sec.holds(p2[k]));
            assert(!pg.holds(p2[k]));
            assert(p1[p2[k]] == p2[k]);
        }
        assert forall|k: int| 0 <= k < n && !pg.holds(k) && !sec.holds(k) implies #[trigger] comb[k]
            == k by {
            assert(p2[k] == k);
            assert(p1[k] == k);
        }
        assert forall|k1: int, k2: int|
            0 <= k1 < k2 < n implies #[trigger] comb[k1] != #[trigger] comb[k2] by {
            assert(0 <= p2[k1] < n && 0 <= p2[k2] < n) by {
                if pg.holds(k1) || sec.holds(k1) {
                } else {
                }
                if sec.holds(k1) {
                    assert(sec.holds(p2[k1]));
                }
            }
            assert(p2[k1] != p2[k2]);
            if p2[k1] < p2[k2] {
                assert(p1[p2[k1]] != p1[p2[k2]]);
            } else {
                assert(p1[p2[k2]] != p1[p2[k1]]);
            }
        }
        assert(is_perm_two(comb, n, pg, sec));
        // every position's core now comes from the composed source
        assert forall|k: int| 0 <= k < n implies page_core(#[trigger] v4[k]) == page_core(
            v0[comb[k]],
        ) && v4[k].id == v0[comb[k]].id by {
            assert(0 <= p2[k] < n);
            assert(v2[k] == v1[p2[k]]);
            assert(v1[p2[k]] == v0[p1[p2[k]]]);
            if pg.holds(k) {
                assert(!sec.holds(k));
                assert(v4[k] == v3[k]);
                assert(page_core(v3[k]) == page_core(v2[k]));
                assert(v3[k].id == v2[k].id);
            } else if sec.holds(k) {
                assert(v3[k] == v2[k]);
                assert(page_core(v4[k]) == page_core(v3[k]));
                assert(v4[k].id == v3[k].id);
            } else {
                assert(v3[k] == v2[k]);
                assert(v4[k] == v3[k]);
            }
        }
        // sortedness survives the link rewrite, which keeps every core
        assert forall|a: int, b: int|
            pg.start <= a < b < pg.end implies page_le(mode, #[trigger] v4[a], #[trigger] v4[b]) by {
            assert(v2[a] == v1[p2[a]] && p2[a] == a);
            assert(v2[b] == v1[p2[b]] && p2[b] == b);
            assert(page_le(mode, v1[a], v1[b]));
            assert(page_core(v4[a]) == page_core(v0[comb[a]]));
            assert(page_core(v1[a]) == page_core(v0[p1[a]]));
            assert(v1[a] == v0[p1[a]]);
            assert(v1[b] == v0[p1[b]]);
            assert(comb[a] == p1[a] && comb[b] == p1[b]);
            assert(v4[a].weight == v1[a].weight && v4[a].date == v1[a].date) by {
                assert(page_core(v4[a]).weight == page_core(v1[a]).weight);
                assert(page_core(v4[a]).date == page_core(v1[a]).date);
            }
            assert(v4[b].weight == v1[b].weight && v4[b].date == v1[b].date) by {
                assert(page_core(v4[b]).weight == page_core(v1[b]).weight);
                assert(page_core(v4[b]).date == page_core(v1[b]).date);
            }
        }
        assert forall|a: int, b: int|
            sec.start <= a < b < sec.end implies page_le(mode, #[trigger] v4[a], #[trigger] v4[b]) by {
            assert(page_le(mode, v2[a], v2[b]));
            assert(v4[a] == v3[a] || true);
            assert(!pg.holds(a) && !pg.holds(b));
            assert(v3[a] == v2[a] && v3[b] == v2[b]);
            assert(page_core(v4[a]).weight == page_core(v3[a]).weight);
            assert(page_core(v4[a]).date == page_core(v3[a]).date);
            assert(page_core(v4[b]).weight == page_core(v3[b]).weight);
            assert(page_core(v4[b]).date == page_core(v3[b]).date);
        }
        // links: the second rewrite leaves the first range alone
        assert forall|k: int| pg.holds(k) implies linked_at(v4, k, i as int, pg) by {
            assert(!sec.holds(k));
            assert(v4[k] == v3[k]);
        }
        // per-range multisets
        assert(0 <= pg.start <= pg.end <= n);
        lemma_span_perm_multiset(v0, v4, comb, pg.start as int, pg.end as int);
        lemma_span_perm_multiset(v0, v4, comb, sec.start as int, sec.end as int);
    }
    Ghost(comb)
}

/// If a full-length permutation maps `[lo, hi)` onto itself and the cores
/// track it, the cores of that subrange keep their multiset.
proof fn lemma_span_perm_multiset(v0: Seq<Page>, v4: Seq<Page>, comb: Seq<int>, lo: int, hi: int)
    requires
        v0.len() == v4.len(),
        comb.len() == v0.len(),
        0 <= lo <= hi <= v0.len(),
        forall|k: int| lo <= k < hi ==> lo <= #[trigger] comb[k] < hi,
        forall|k1: int, k2: int|
            0 <= k1 < k2 < comb.len() ==> #[trigger] comb[k1] != #[trigger] comb[k2],
        forall|k: int|
            0 <= k < v4.len() ==> page_core(#[trigger] v4[k]) == page_core(v0[comb[k]]),
    ensures
        cores(v4.subrange(lo, hi)).to_multiset() == cores(v0.subrange(lo, hi)).to_multiset(),
{
    let a = cores(v0.subrange(lo, hi));
    let b = cores(v4.subrange(lo, hi));
    let sub = Seq::new((hi - lo) as nat, |k: int| comb[k + lo] - lo);
    assert forall|k: int| 0 <= k < sub.len() implies 0 <= #[trigger] sub[k] < a.len() by {
        assert(lo <= comb[k + lo] < hi);
    }
    assert forall|k1: int, k2: int|
        0 <= k1 < k2 < sub.len() implies #[trigger] sub[k1] != #[trigger] sub[k2] by {
        assert(comb[k1 + lo] != comb[k2 + lo]);
    }
    assert forall|k: int| 0 <= k < b.len() implies #[trigger] b[k] == a[sub[k]] by {
        assert(b[k] == page_core(v4.subrange(lo, hi)[k]));
        assert(v4.subrange(lo, hi)[k] == v4[k + lo]);
        assert(page_core(v4[k + lo]) == page_core(v0[comb[k + lo]]));
        assert(a[sub[k]] == page_core(v0.subrange(lo, hi)[comb[k + lo] - lo]));
        assert(v0.subrange(lo, hi)[comb[k + lo] - lo] == v0[comb[k + lo]]);
    }
    lemma_apply_perm_multiset(a, b, sub);
}

/// A list of pages properly sorted and linked within.
#[derive(Debug)]
pub struct Pages(pub Vec<Page>);

/// The finished bookkeeping of the section at `q`: both child ranges are
/// ordered by the section's sort flag (weight ascending, else date
/// descending with missing dates last), every child's parent points back at
/// `q`, and previous/next chain each range with the sentinel `0` at its
/// ends.
pub open spec fn section_fixed(s: Seq<Page>, q: int) -> bool {
    let pg = s[q].pages;
    let sec = s[q].subsections;
    let mode = if s[q].sort_by_weight {
        SortMode::ByWeight
    } else {
        SortMode::ByDate
    };
    &&& sorted_in(s, pg.start as int, pg.end as int, mode)
    &&& sorted_in(s, sec.start as int, sec.end as int, mode)
    &&& forall|j: int| #[trigger] pg.holds(j) ==> linked_at(s, j, q, pg)
    &&& forall|j: int| #[trigger] sec.holds(j) ==> linked_at(s, j, q, sec)
}

impl Pages {
    /// Appropriately sort and link the given vector of pages, whose child
    /// ranges come from the scanner: for every page in arena order, sort its
    /// two child ranges (by weight ascending if it asks for that, else by
    /// date descending), chain previous/next through each range, point every
    /// child's parent at its section, and assign every page its position as
    /// its identifier. The same pages come out that went in, reordered only
    /// within child ranges.
    #[verifier::rlimit(100)]
    pub fn from_sources(pages: Vec<Page>) -> (r: Pages)
        requires
            spans_wf(pages@),
        ensures
            r.0@.len() == pages@.len(),
            spans_wf(r.0@),
            cores(r.0@).to_multiset() == cores(pages@).to_multiset(),
            forall|q: int| 0 <= q < r.0@.len() ==> #[trigger] r.0@[q].id == q,
            forall|q: int| 0 <= q < r.0@.len() ==> #[trigger] section_fixed(r.0@, q),
    {
        let mut v = pages;
        let ghost v_in = v@;
        let n = v.len();
        let mut i: usize = 0;
        while i < n
            invariant
                i <= n,
                n == v@.len(),
                v_in.len() == n,
                spans_wf(v@),
                cores(v@).to_multiset() == cores(v_in).to_multiset(),
                forall|q: int| 0 <= q < i ==> #[trigger] v@[q].id == q,
                forall|q: int| 0 <= q < i ==> #[trigger] section_fixed(v@, q),
            decreases n - i,
        {
            let ghost vpre = v@;
            let ghost ni = n as int;
            let mode = if v[i].sort_by_weight {
                SortMode::ByWeight
            } else {
                SortMode::ByDate
            };
            proof {
                assert(span_ok(vpre[i as int].pages, i as int, ni));
                assert forall|j: int|
                    !(vpre[i as int].pages.holds(j) && vpre[i as int].subsections.holds(j)) by {
                    if vpre[i as int].pages.holds(j) && vpre[i as int].subsections.holds(j) {
                        assert(i as int == i as int);
                    }
                }
            }
            let Ghost(p) = fix_section(&mut v, i, mode);
            let ghost vmid = v@;
            let mut x = v.remove(i);
            x.id = i;
            v.insert(i, x);
            let ghost vnew = v@;
            proof {
                let pg = vpre[i as int].pages;
                let sec = vpre[i as int].subsections;
                assert(vnew =~= vmid.update(i as int, vnew[i as int]));
                assert(!pg.holds(i as int) && !sec.holds(i as int));
                assert(vmid[i as int] == vpre[i as int]);
                assert(page_core(vnew[i as int]) == page_core(vmid[i as int]));
                // cores still track the permutation, ids everywhere but i too
                assert forall|k: int| 0 <= k < ni implies page_core(#[trigger] vnew[k])
                    == page_core(vpre[p[k]]) by {
                    if k != i {
                        assert(vnew[k] == vmid[k]);
                    }
                }
                assert forall|k: int| 0 <= k < ni implies 0 <= #[trigger] p[k] < ni by {
                    if pg.holds(k) {
                        assert(pg.holds(p[k]));
                    } else if sec.holds(k) {
                        assert(sec.holds(p[k]));
                    } else {
                        assert(p[k] == k);
                    }
                }
                // every page's ranges now come from a page of the same family
                assert forall|k: int| 0 <= k < ni implies (#[trigger] vnew[k]).pages == vpre[p[k]].pages
                    && vnew[k].subsections == vpre[p[k]].subsections
                    && vnew[k].sort_by_weight == vpre[p[k]].sort_by_weight by {
                    assert(page_core(vnew[k]).pages == page_core(vpre[p[k]]).pages);
                    assert(page_core(vnew[k]).subsections == page_core(vpre[p[k]]).subsections);
                    assert(page_core(vnew[k]).sort_by_weight == page_core(
                        vpre[p[k]],
                    ).sort_by_weight);
                }
                // moved pages stay inside their family, so their ranges
                // still lie beyond them
                assert forall|q: int| 0 <= q < ni implies span_ok(
                    (#[trigger] vnew[q]).pages,
                    q,
                    ni,
                ) && span_ok(vnew[q].subsections, q, ni) by {
                    if pg.holds(q) {
                        assert(pg.holds(p[q]));
                        assert(spans_after(vpre[i as int], vpre[p[q]]));
                        assert(q < pg.end);
                    } else if sec.holds(q) {
                        assert(sec.holds(p[q]));
                        assert(spans_after(vpre[i as int], vpre[p[q]]));
                        assert(q < sec.end);
                    } else {
                        assert(p[q] == q);
                    }
                }
                // unique ownership survives a bijection
                assert forall|q1: int, q2: int, j: int|
                    0 <= q1 < ni && 0 <= q2 < ni && (#[trigger] vnew[q1].pages.holds(j)) && (
                    #[trigger] vnew[q2].pages.holds(j)) implies q1 == q2 by {
                    assert(vpre[p[q1]].pages.holds(j));
                    assert(vpre[p[q2]].pages.holds(j));
                    assert(p[q1] == p[q2]);
                    if q1 < q2 {
                        assert(p[q1] != p[q2]);
                    } else if q2 < q1 {
                        assert(p[q2] != p[q1]);
                    }
                }
                assert forall|q1: int, q2: int, j: int|
                    0 <= q1 < ni && 0 <= q2 < ni && (#[trigger] vnew[q1].subsections.holds(j)) && (
                    #[trigger] vnew[q2].subsections.holds(j)) implies q1 == q2 by {
                    assert(vpre[p[q1]].subsections.holds(j));
                    assert(vpre[p[q2]].subsections.holds(j));
                    assert(p[q1] == p[q2]);
                    if q1 < q2 {
                        assert(p[q1] != p[q2]);
                    } else if q2 < q1 {
                        assert(p[q2] != p[q1]);
                    }
                }
                assert forall|q1: int, q2: int, j: int|
                    0 <= q1 < ni && 0 <= q2 < ni implies !((#[trigger] vnew[q1].pages.holds(j))
                    && (#[trigger] vnew[q2].subsections.holds(j))) by {
                    if vnew[q1].pages.holds(j) && vnew[q2].subsections.holds(j) {
                        assert(vpre[p[q1]].pages.holds(j));
                        assert(vpre[p[q2]].subsections.holds(j));
                    }
                }
                // nesting survives too
                assert forall|q: int, j: int|
                    0 <= q < ni && (#[trigger] vnew[q].pages.holds(j)) implies spans_after(
                    vnew[q],
                    vnew[j],
                ) by {
                    assert(vpre[p[q]].pages.holds(j));
                    assert(0 <= j < ni);
                    if pg.holds(j) {
                        assert(vpre[i as int].pages.holds(j));
                        assert(p[q] == i as int);
                        assert(pg.holds(p[j]));
                        assert(spans_after(vpre[i as int], vpre[p[j]]));
                    } else if sec.holds(j) {
                        assert(vpre[i as int].subsections.holds(j));
                        assert(vpre[p[q]].pages.holds(j));
                    } else {
                        assert(p[j] == j);
                        assert(spans_after(vpre[p[q]], vpre[j]));
                    }
                }
                assert forall|q: int, j: int|
                    0 <= q < ni && (#[trigger] vnew[q].subsections.holds(j)) implies spans_after(
                    vnew[q],
                    vnew[j],
                ) by {
                    assert(vpre[p[q]].subsections.holds(j));
                    assert(0 <= j < ni);
                    if sec.holds(j) {
                        assert(vpre[i as int].subsections.holds(j));
                        assert(p[q] == i as int);
                        assert(sec.holds(p[j]));
                        assert(spans_after(vpre[i as int], vpre[p[j]]));
                    } else if pg.holds(j) {
                        assert(vpre[i as int].pages.holds(j));
                        assert(vpre[p[q]].subsections.holds(j));
                    } else {
                        assert(p[j] == j);
                        assert(spans_after(vpre[p[q]], vpre[j]));
                    }
                }
                assert(spans_wf(vnew));
                // the multiset of cores is untouched
                assert forall|k: int| 0 <= k < ni implies #[trigger] cores(vnew)[k] == cores(
                    vpre,
                )[p[k]] by {
                    assert(cores(vnew)[k] == page_core(vnew[k]));
                    assert(cores(vpre)[p[k]] == page_core(vpre[p[k]]));
                }
                assert forall|k1: int, k2: int|
                    0 <= k1 < k2 < ni implies #[trigger] p[k1] != #[trigger] p[k2] by {}
                lemma_apply_perm_multiset(cores(vpre), cores(vnew), p);
                // earlier sections were already done and are untouched
                assert forall|q: int| 0 <= q < i + 1 implies #[trigger] vnew[q].id == q by {
                    if q < i {
                        assert(!pg.holds(q) && !sec.holds(q));
                        assert(vmid[q] == vpre[q]);
                        assert(vnew[q] == vmid[q]);
                    }
                }
                assert forall|q: int, j: int|
                    0 <= q < ni && ((#[trigger] vpre[q].pages.holds(j)) || (
                    #[trigger] vpre[q].subsections.holds(j))) && q != i implies vnew[j] == vpre[j]
                    || (j == i && page_core(vnew[j]) == page_core(vpre[j]) && vnew[j].parent
                    == vpre[j].parent && vnew[j].previous == vpre[j].previous && vnew[j].next
                    == vpre[j].next) by {
                    if vpre[q].pages.holds(j) {
                        if pg.holds(j) {
                            assert(q == i as int);
                        } else if sec.holds(j) {
                        } else {
                            if j != i {
                                assert(vmid[j] == vpre[j]);
                                assert(vnew[j] == vmid[j]);
                            } else {
                                assert(vmid[j] == vpre[j]);
                            }
                        }
                    } else {
                        if sec.holds(j) {
                            assert(q == i as int);
                        } else if pg.holds(j) {
                        } else {
                            if j != i {
                                assert(vmid[j] == vpre[j]);
                                assert(vnew[j] == vmid[j]);
                            } else {
                                assert(vmid[j] == vpre[j]);
                            }
                        }
                    }
                }
                assert forall|q: int| 0 <= q < i + 1 implies #[trigger] section_fixed(vnew, q) by {
                    if q < i {
                        assert(section_fixed(vpre, q));
                        assert(vnew[q] == vpre[q]);
                        let qpg = vpre[q].pages;
                        let qsec = vpre[q].subsections;
                        let qmode = if vpre[q].sort_by_weight {
                            SortMode::ByWeight
                        } else {
                            SortMode::ByDate
                        };
                        assert forall|j: int| #[trigger] qpg.holds(j) implies linked_at(
                            vnew,
                            j,
                            q,
                            qpg,
                        ) by {
                            assert(linked_at(vpre, j, q, qpg));
                        }
                        assert forall|j: int| #[trigger] qsec.holds(j) implies linked_at(
                            vnew,
                            j,
                            q,
                            qsec,
                        ) by {
                            assert(linked_at(vpre, j, q, qsec));
                        }
                        assert forall|a: int, b: int|
                            qpg.start <= a < b < qpg.end implies page_le(
                            qmode,
                            #[trigger] vnew[a],
                            #[trigger] vnew[b],
                        ) by {
                            assert(qpg.holds(a) && qpg.holds(b));
                            assert(page_le(qmode, vpre[a], vpre[b]));
                            assert(page_core(vnew[a]) == page_core(vpre[a]));
                            assert(page_core(vnew[b]) == page_core(vpre[b]));
                            assert(vnew[a].weight == vpre[a].weight && vnew[a].date
                                == vpre[a].date);
                            assert(vnew[b].weight == vpre[b].weight && vnew[b].date
                                == vpre[b].date);
                        }
                        assert forall|a: int, b: int|
                            qsec.start <= a < b < qsec.end implies page_le(
                            qmode,
                            #[trigger] vnew[a],
                            #[trigger] vnew[b],
                        ) by {
                            assert(qsec.holds(a) && qsec.holds(b));
                            assert(page_le(qmode, vpre[a], vpre[b]));
                            assert(page_core(vnew[a]) == page_core(vpre[a]));
                            assert(page_core(vnew[b]) == page_core(vpre[b]));
                            assert(vnew[a].weight == vpre[a].weight && vnew[a].date
                                == vpre[a].date);
                            assert(vnew[b].weight == vpre[b].weight && vnew[b].date
                                == vpre[b].date);
                        }
                    } else {
                        // the section just processed
                        assert(vnew[q].pages == pg && vnew[q].subsections == sec);
                        assert(vnew[q].sort_by_weight == vpre[i as int].sort_by_weight);
                        assert forall|j: int| #[trigger] pg.holds(j) implies linked_at(
                            vnew,
                            j,
                            q,
                            pg,
                        ) by {
                            assert(linked_at(vmid, j, i as int, pg));
                            assert(j != i);
                            assert(vnew[j] == vmid[j]);
                        }
                        assert forall|j: int| #[trigger] sec.holds(j) implies linked_at(
                            vnew,
                            j,
                            q,
                            sec,
                        ) by {
                            assert(linked_at(vmid, j, i as int, sec));
                            assert(j != i);
                            assert(vnew[j] == vmid[j]);
                        }
                        assert forall|a: int, b: int|
                            pg.start <= a < b < pg.end implies page_le(
                            mode,
                            #[trigger] vnew[a],
                            #[trigger] vnew[b],
                        ) by {
                            assert(pg.holds(a) && pg.holds(b));
                            assert(a != i && b != i);
                            assert(vnew[a] == vmid[a] && vnew[b] == vmid[b]);
                            assert(page_le(mode, vmid[a], vmid[b]));
                        }
                        assert forall|a: int, b: int|
                            sec.start <= a < b < sec.end implies page_le(
                            mode,
                            #[trigger] vnew[a],
                            #[trigger] vnew[b],
                        ) by {
                            assert(sec.holds(a) && sec.holds(b));
                            assert(a != i && b != i);
                            assert(vnew[a] == vmid[a] && vnew[b] == vmid[b]);
                            assert(page_le(mode, vmid[a], vmid[b]));
                        }
                        assert(section_fixed(vnew, q));
                    }
                }
            }
            i = i + 1;
        }
        Pages(v)
    }
}

/// The page's core with its child ranges cleared: what the external
/// reconstruction preserves while it computes fresh ranges.
pub open spec fn flat_core(p: Page) -> PageCore {
    PageCore {
        pages: Span { start: 0, end: 0 },
        subsections: Span { start: 0, end: 0 },
        ..page_core(p)
    }
}

/// The flat cores of a run of pages.
pub open spec fn flats(s: Seq<Page>) -> Seq<PageCore> {
    s.map_values(|p: Page| flat_core(p))
}

/// Does the page at `j` pass the immediate-child test of the section at `i`?
pub open spec fn child_of(s: Seq<Page>, j: int, i: int) -> bool {
    crate::strutil::spec_is_subpage(s[j].path.0@, s[i].path.0@, s[i].slug@)
}

/// No page passes the immediate-child test of two distinct sections: what a
/// consistent, uniquely encoded set of output paths guarantees, and what
/// keeps the discovered child runs of different sections apart.
pub open spec fn unique_parentage(s: Seq<Page>) -> bool {
    forall|a: int, b: int, j: int|
        #![trigger child_of(s, j, a), child_of(s, j, b)]
        0 <= a < s.len() && 0 <= b < s.len() && a != b && 0 <= j < s.len() && s[a].is_section
            && s[b].is_section ==> !(child_of(s, j, a) && child_of(s, j, b))
}

/// Check the precondition of `Pages::from_external`: no page may look like
/// an immediate child of two distinct sections.
pub fn external_input_ok(pages: &Vec<Page>) -> (r: bool)
    ensures
        r == unique_parentage(pages@),
{
    let n = pages.len();
    let mut a: usize = 0;
    while a < n
        invariant
            a <= n,
            n == pages@.len(),
            forall|x: int, y: int, j: int|
                #![trigger child_of(pages@, j, x), child_of(pages@, j, y)]
                0 <= x < a && 0 <= y < n && x != y && 0 <= j < n && pages@[x].is_section
                    && pages@[y].is_section ==> !(child_of(pages@, j, x) && child_of(
                    pages@,
                    j,
                    y,
                )),
        decreases n - a,
    {
        if pages[a].is_section {
            let mut b: usize = 0;
            while b < n
                invariant
                    b <= n,
                    a < n,
                    n == pages@.len(),
                    pages@[a as int].is_section,
                    forall|y: int, j: int|
                        #![trigger child_of(pages@, j, y)]
                        0 <= y < b && y != a && 0 <= j < n && pages@[y].is_section ==> !(
                        child_of(pages@, j, a as int) && child_of(pages@, j, y)),
                decreases n - b,
            {
                if b != a && pages[b].is_section {
                    let mut j: usize = 0;
                    while j < n
                        invariant
                            j <= n,
                            a < n,
                            b < n,
                            a != b,
                            n == pages@.len(),
                            pages@[a as int].is_section,
                            pages@[b as int].is_section,
                            forall|m: int|
                                0 <= m < j ==> !(child_of(pages@, m, a as int) && #[trigger]
                                child_of(pages@, m, b as int)),
                        decreases n - j,
                    {
                        let ca = crate::strutil::is_subpage(
                            pages[j].path.0.as_str(),
                            pages[a].path.0.as_str(),
                            pages[a].slug.as_str(),
                        );
                        let cb = crate::strutil::is_subpage(
                            pages[j].path.0.as_str(),
                            pages[b].path.0.as_str(),
                            pages[b].slug.as_str(),
                        );
                        if ca && cb {
                            proof {
                                assert(child_of(pages@, j as int, a as int));
                                assert(child_of(pages@, j as int, b as int));
                            }
                            return false;
                        }
                        j = j + 1;
                    }
                }
                b = b + 1;
            }
        }
        a = a + 1;
    }
    true
}

/// What the external reconstruction leaves behind at one section: both child
/// ranges valid and filled with pages that pass its immediate-child test —
/// subsections in one range, plain pages in the other — every child linked
/// to its neighbours and pointing back at the section, and both ranges
/// sorted by weight where the section asks for that.
pub open spec fn external_section_done(s: Seq<Page>, q: int) -> bool {
    let pg = s[q].pages;
    let sec = s[q].subsections;
    &&& span_ok(pg, q, s.len() as int)
    &&& span_ok(sec, q, s.len() as int)
    &&& forall|j: int|
        #[trigger] pg.holds(j) ==> linked_at(s, j, q, pg) && !s[j].is_section && child_of(s, j, q)
    &&& forall|j: int|
        #[trigger] sec.holds(j) ==> linked_at(s, j, q, sec) && s[j].is_section && child_of(
            s,
            j,
            q,
        )
    &&& s[q].sort_by_weight ==> sorted_in(s, pg.start as int, pg.end as int, SortMode::ByWeight)
        && sorted_in(s, sec.start as int, sec.end as int, SortMode::ByWeight)
}

/// Find the child runs of the section at `i`: skip forward to the first page
/// passing its immediate-child test, take the run of child sections, then
/// the run of child pages, stopping at the first page that fails the test or
/// breaks the sections-before-pages shape.
fn scan_children(v: &Vec<Page>, i: usize) -> (r: (Span, Span))
    requires
        i < v@.len(),
    ensures
        span_ok(r.0, i as int, v@.len() as int),
        span_ok(r.1, i as int, v@.len() as int),
        forall|j: int| !(#[trigger] r.0.holds(j) && r.1.holds(j)),
        forall|j: int|
            #[trigger] r.0.holds(j) ==> child_of(v@, j, i as int) && v@[j].is_section,
        forall|j: int|
            #[trigger] r.1.holds(j) ==> child_of(v@, j, i as int) && !v@[j].is_section,
        forall|j: int|
            i < j < v@.len() && #[trigger] child_of(v@, j, i as int) ==> r.0.spec_len()
                + r.1.spec_len() >= 1,
{
    let n = v.len();
    let mut j = i + 1;
    while j < n && !is_child_exec(v, j, i)
        invariant
            i < j <= n,
            n == v@.len(),
            forall|m: int| i < m < j ==> !child_of(v@, m, i as int),
        decreases n - j,
    {
        j = j + 1;
    }
    if j >= n {
        return (Span { start: 0, end: 0 }, Span { start: 0, end: 0 });
    }
    proof {
        assert(child_of(v@, j as int, i as int));
    }
    let ghost first = j as int;
    let sec_start = j;
    while j < n && is_child_exec(v, j, i) && v[j].is_section
        invariant
            sec_start <= j <= n,
            i < sec_start,
            n == v@.len(),
            forall|m: int|
                sec_start <= m < j ==> child_of(v@, m, i as int) && (#[trigger] v@[m]).is_section,
        decreases n - j,
    {
        j = j + 1;
    }
    let sec_end = j;
    let pg_start = j;
    while j < n && is_child_exec(v, j, i) && !v[j].is_section
        invariant
            pg_start <= j <= n,
            i < pg_start,
            n == v@.len(),
            forall|m: int|
                pg_start <= m < j ==> child_of(v@, m, i as int) && !(#[trigger] v@[m]).is_section,
        decreases n - j,
    {
        j = j + 1;
    }
    let pg_end = j;
    let sec_span = if sec_start < sec_end {
        Span { start: sec_start, end: sec_end }
    } else {
        Span { start: 0, end: 0 }
    };
    let pg_span = if pg_start < pg_end {
        Span { start: pg_start, end: pg_end }
    } else {
        Span { start: 0, end: 0 }
    };
    proof {
        // the first matching page entered one of the two runs
        assert(sec_span.spec_len() + pg_span.spec_len() >= 1) by {
            if v@[first].is_section {
                assert(sec_end > sec_start);
            } else {
                assert(sec_end == sec_start && pg_start == sec_start);
                assert(pg_end > pg_start);
            }
        }
    }
    (sec_span, pg_span)
}

impl Pages {
    /// Build up the internal hierarchical structure of pages loaded from an
    /// external source, which carry no pre-computed child ranges. The caller
    /// must hand the list sorted by the canonical order (`Page::cmp`) for
    /// the discovered tree to be complete — a mis-sorted list silently
    /// yields a partial tree — and no page may pass the immediate-child test
    /// of two distinct sections (`external_input_ok` checks that). For every
    /// section, the first run of immediate-child sections and the following
    /// run of immediate-child pages become its child ranges, sorted by
    /// weight where the section asks for that and kept in list order
    /// otherwise; children are linked and everything is renumbered by
    /// position.
    #[verifier::rlimit(100)]
    pub fn from_external(pages: Vec<Page>) -> (r: Pages)
        requires
            forall|k: int|
                0 <= k < pages@.len() ==> (#[trigger] pages@[k]).pages == (Span {
                    start: 0,
                    end: 0,
                }) && pages@[k].subsections == (Span { start: 0, end: 0 }),
            unique_parentage(pages@),
        ensures
            r.0@.len() == pages@.len(),
            flats(r.0@).to_multiset() == flats(pages@).to_multiset(),
            forall|q: int| 0 <= q < r.0@.len() ==> #[trigger] r.0@[q].id == q,
            forall|q: int|
                0 <= q < r.0@.len() && (#[trigger] r.0@[q]).is_section
                    ==> external_section_done(r.0@, q),
            forall|q: int|
                0 <= q < r.0@.len() && !(#[trigger] r.0@[q]).is_section ==> r.0@[q].pages == (
                Span { start: 0, end: 0 }) && r.0@[q].subsections == (Span { start: 0, end: 0 }),
            forall|q: int, j: int|
                0 <= q < r.0@.len() && q < j < r.0@.len() && (#[trigger] r.0@[q]).is_section
                    && #[trigger] child_of(r.0@, j, q) ==> r.0@[q].pages.spec_len()
                    + r.0@[q].subsections.spec_len() >= 1,
    {
        let mut v = pages;
        let ghost v_in = v@;
        let n = v.len();
        let mut i: usize = 0;
        while i < n
            invariant
                i <= n,
                n == v@.len(),
                v_in.len() == n,
                unique_parentage(v@),
                flats(v@).to_multiset() == flats(v_in).to_multiset(),
                forall|k: int|
                    i <= k < n ==> (#[trigger] v@[k]).pages == (Span { start: 0, end: 0 })
                        && v@[k].subsections == (Span { start: 0, end: 0 }),
                forall|q: int| 0 <= q < i ==> #[trigger] v@[q].id == q,
                forall|q: int|
                    0 <= q < i && (#[trigger] v@[q]).is_section ==> external_section_done(v@, q),
                forall|q: int|
                    0 <= q < i && !(#[trigger] v@[q]).is_section ==> v@[q].pages == (Span {
                        start: 0,
                        end: 0,
                    }) && v@[q].subsections == (Span { start: 0, end: 0 }),
                forall|q: int, j: int|
                    0 <= q < i && q < j < n && (#[trigger] v@[q]).is_section && #[trigger] child_of(
                        v@,
                        j,
                        q,
                    ) ==> v@[q].pages.spec_len() + v@[q].subsections.spec_len() >= 1,
            decreases n - i,
        {
            let ghost vpre = v@;
            let ghost ni = n as int;
            if v[i].is_section {
                let (sec_span, pg_span) = scan_children(&v, i);
                let mut x = v.remove(i);
                x.pages = pg_span;
                x.subsections = sec_span;
                v.insert(i, x);
                let ghost va = v@;
                let mode = if v[i].sort_by_weight {
                    SortMode::ByWeight
                } else {
                    SortMode::Keep
                };
                proof {
                    assert(va =~= vpre.update(i as int, va[i as int]));
                    assert(span_ok(va[i as int].pages, i as int, ni));
                    assert(span_ok(va[i as int].subsections, i as int, ni));
                }
                let Ghost(p) = fix_section(&mut v, i, mode);
                let ghost vb = v@;
                proof {
                    let pg = pg_span;
                    let sec = sec_span;
                    assert(va[i as int].pages == pg && va[i as int].subsections == sec);
                    assert(!pg.holds(i as int) && !sec.holds(i as int));
                    assert(vb[i as int] == va[i as int]);
                    // every core field except the ranges is as before the
                    // range write, routed through the permutation
                    assert forall|k: int| 0 <= k < ni implies 0 <= #[trigger] p[k] < ni by {
                        if pg.holds(k) {
                            assert(pg.holds(p[k]));
                        } else if sec.holds(k) {
                            assert(sec.holds(p[k]));
                        } else {
                            assert(p[k] == k);
                        }
                    }
                    assert forall|k: int| 0 <= k < ni implies (#[trigger] vb[k]).path.0@
                        == vpre[p[k]].path.0@ && vb[k].slug@ == vpre[p[k]].slug@
                        && vb[k].is_section == vpre[p[k]].is_section && flat_core(vb[k])
                        == flat_core(vpre[p[k]]) by {
                        assert(page_core(vb[k]) == page_core(va[p[k]]));
                        if p[k] == i {
                            assert(va[p[k]].path.0@ == vpre[p[k]].path.0@);
                            assert(flat_core(va[p[k]]) == flat_core(vpre[p[k]]));
                        } else {
                            assert(va[p[k]] == vpre[p[k]]);
                        }
                    }
                    // disjoint child tests survive the permutation
                    assert forall|a: int, b: int, j: int|
                        #![trigger child_of(vb, j, a), child_of(vb, j, b)]
                        0 <= a < ni && 0 <= b < ni && a != b && 0 <= j < ni
                            && vb[a].is_section && vb[b].is_section implies !(child_of(vb, j, a)
                        && child_of(vb, j, b)) by {
                        if child_of(vb, j, a) && child_of(vb, j, b) {
                            assert(child_of(vpre, p[j], p[a]));
                            assert(child_of(vpre, p[j], p[b]));
                            if a < b {
                                assert(p[a] != p[b]);
                            } else {
                                assert(p[b] != p[a]);
                            }
                            assert(vpre[p[a]].is_section && vpre[p[b]].is_section);
                        }
                    }
                    // the flat multiset is untouched
                    assert forall|k: int| 0 <= k < ni implies #[trigger] flats(vb)[k] == flats(
                        vpre,
                    )[p[k]] by {
                        assert(flats(vb)[k] == flat_core(vb[k]));
                        assert(flats(vpre)[p[k]] == flat_core(vpre[p[k]]));
                    }
                    assert forall|k1: int, k2: int|
                        0 <= k1 < k2 < ni implies #[trigger] p[k1] != #[trigger] p[k2] by {}
                    lemma_apply_perm_multiset(flats(vpre), flats(vb), p);
                    // positions still waiting keep empty ranges
                    assert forall|k: int| i + 1 <= k < ni implies (#[trigger] vb[k]).pages == (
                    Span { start: 0, end: 0 }) && vb[k].subsections == (Span {
                        start: 0,
                        end: 0,
                    }) by {
                        assert(page_core(vb[k]) == page_core(va[p[k]]));
                        assert(p[k] > i);
                        assert(va[p[k]] == vpre[p[k]]);
                    }
                    // children of this section really are its children
                    assert forall|j: int| #[trigger] pg.holds(j) implies child_of(vb, j, i as int)
                        && !vb[j].is_section by {
                        assert(pg.holds(p[j]));
                        assert(child_of(vpre, p[j], i as int));
                        assert(!vpre[p[j]].is_section);
                        assert(vb[i as int].path.0@ == vpre[i as int].path.0@);
                        assert(vb[i as int].slug@ == vpre[i as int].slug@);
                    }
                    assert forall|j: int| #[trigger] sec.holds(j) implies child_of(
                        vb,
                        j,
                        i as int,
                    ) && vb[j].is_section by {
                        assert(sec.holds(p[j]));
                        assert(child_of(vpre, p[j], i as int));
                        assert(vpre[p[j]].is_section);
                        assert(vb[i as int].path.0@ == vpre[i as int].path.0@);
                        assert(vb[i as int].slug@ == vpre[i as int].slug@);
                    }
                    // earlier sections keep their finished shape: their own
                    // record and all their children lie outside this run
                    assert forall|q: int|
                        0 <= q < i && (#[trigger] vb[q]).is_section implies
                        external_section_done(vb, q) && vb[q] == vpre[q] by {
                        assert(!pg.holds(q) && !sec.holds(q));
                        assert(p[q] == q);
                        assert(vb[q] == va[q] && va[q] == vpre[q]);
                        assert(external_section_done(vpre, q));
                        let qpg = vpre[q].pages;
                        let qsec = vpre[q].subsections;
                        assert forall|j: int| #[trigger] qpg.holds(j) implies vb[j] == vpre[j]
                            || (j == i && linked_at(vb, j, q, qpg) && !vb[j].is_section
                            && child_of(vb, j, q)) by {
                            assert(child_of(vpre, j, q));
                            assert(0 <= j < ni);
                            if pg.holds(j) || sec.holds(j) {
                                assert(child_of(vpre, j, i as int));
                                assert(vpre[i as int].is_section && vpre[q].is_section);
                                assert(q != i);
                                assert(false);
                            } else if j == i {
                                assert(vb[j].parent == vpre[j].parent);
                                assert(vb[j].previous == vpre[j].previous);
                                assert(vb[j].next == vpre[j].next);
                                assert(vb[j].path.0@ == vpre[j].path.0@);
                                assert(vb[j].is_section == vpre[j].is_section);
                                assert(linked_at(vpre, j, q, qpg));
                                assert(child_of(vb, j, q)) by {
                                    assert(vb[q] == vpre[q]);
                                }
                            } else {
                                assert(va[j] == vpre[j]);
                                assert(vb[j] == va[j]);
                            }
                        }
                        assert forall|j: int| #[trigger] qsec.holds(j) implies vb[j] == vpre[j]
                            || (j == i && linked_at(vb, j, q, qsec) && vb[j].is_section
                            && child_of(vb, j, q)) by {
                            assert(child_of(vpre, j, q));
                            assert(0 <= j < ni);
                            if pg.holds(j) || sec.holds(j) {
                                assert(child_of(vpre, j, i as int));
                                assert(vpre[i as int].is_section && vpre[q].is_section);
                                assert(q != i);
                                assert(false);
                            } else if j == i {
                                assert(vb[j].parent == vpre[j].parent);
                                assert(vb[j].previous == vpre[j].previous);
                                assert(vb[j].next == vpre[j].next);
                                assert(vb[j].path.0@ == vpre[j].path.0@);
                                assert(vb[j].is_section == vpre[j].is_section);
                                assert(linked_at(vpre, j, q, qsec));
                                assert(child_of(vb, j, q)) by {
                                    assert(vb[q] == vpre[q]);
                                }
                            } else {
                                assert(va[j] == vpre[j]);
                                assert(vb[j] == va[j]);
                            }
                        }
                        assert forall|aa: int, bb: int|
                            qpg.start <= aa < bb < qpg.end && vpre[q].sort_by_weight implies
                            page_le(SortMode::ByWeight, #[trigger] vb[aa], #[trigger] vb[bb]) by {
                            assert(qpg.holds(aa) && qpg.holds(bb));
                            assert(page_le(SortMode::ByWeight, vpre[aa], vpre[bb]));
                            assert(page_core(vb[aa]) == page_core(va[p[aa]]));
                            assert(vb[aa].weight == vpre[aa].weight) by {
                                if pg.holds(aa) || sec.holds(aa) {
                                    assert(false);
                                }
                                assert(p[aa] == aa);
                                if aa == i {
                                    assert(va[aa].weight == vpre[aa].weight);
                                } else {
                                    assert(va[aa] == vpre[aa]);
                                }
                            }
                            assert(vb[bb].weight == vpre[bb].weight) by {
                                if pg.holds(bb) || sec.holds(bb) {
                                    assert(false);
                                }
                                assert(p[bb] == bb);
                                if bb == i {
                                    assert(va[bb].weight == vpre[bb].weight);
                                } else {
                                    assert(va[bb] == vpre[bb]);
                                }
                            }
                        }
                        assert forall|aa: int, bb: int|
                            qsec.start <= aa < bb < qsec.end && vpre[q].sort_by_weight implies
                            page_le(SortMode::ByWeight, #[trigger] vb[aa], #[trigger] vb[bb]) by {
                            assert(qsec.holds(aa) && qsec.holds(bb));
                            assert(page_le(SortMode::ByWeight, vpre[aa], vpre[bb]));
                            assert(vb[aa].weight == vpre[aa].weight) by {
                                if pg.holds(aa) || sec.holds(aa) {
                                    assert(false);
                                }
                                assert(p[aa] == aa);
                                if aa == i {
                                    assert(va[aa].weight == vpre[aa].weight);
                                } else {
                                    assert(va[aa] == vpre[aa]);
                                }
                            }
                            assert(vb[bb].weight == vpre[bb].weight) by {
                                if pg.holds(bb) || sec.holds(bb) {
                                    assert(false);
                                }
                                assert(p[bb] == bb);
                                if bb == i {
                                    assert(va[bb].weight == vpre[bb].weight);
                                } else {
                                    assert(va[bb] == vpre[bb]);
                                }
                            }
                        }
                    }
                    // and the section just processed is now finished
                    assert(external_section_done(vb, i as int)) by {
                        assert forall|j: int| #[trigger] pg.holds(j) implies linked_at(
                            vb,
                            j,
                            i as int,
                            pg,
                        ) && !vb[j].is_section && child_of(vb, j, i as int) by {}
                        assert forall|j: int| #[trigger] sec.holds(j) implies linked_at(
                            vb,
                            j,
                            i as int,
                            sec,
                        ) && vb[j].is_section && child_of(vb, j, i as int) by {}
                        if vb[i as int].sort_by_weight {
                            assert(mode == SortMode::ByWeight) by {
                                assert(va[i as int].sort_by_weight == vb[i as int].sort_by_weight);
                            }
                        }
                    }
                    // non-sections processed earlier still have empty ranges
                    assert forall|q: int|
                        0 <= q < i && !(#[trigger] vb[q]).is_section implies vb[q].pages == (
                    Span { start: 0, end: 0 }) && vb[q].subsections == (Span {
                        start: 0,
                        end: 0,
                    }) by {
                        assert(!pg.holds(q) && !sec.holds(q));
                        assert(p[q] == q);
                        assert(vb[q] == va[q] && va[q] == vpre[q]);
                    }
                    assert forall|q: int| 0 <= q < i implies #[trigger] vb[q].id == q by {
                        assert(!pg.holds(q) && !sec.holds(q));
                        assert(vb[q] == va[q] && va[q] == vpre[q]);
                    }
                    // a section that still has a child in sight has found
                    // at least one: map the witness back through the moves
                    assert forall|q: int, j: int|
                        0 <= q < i + 1 && q < j < ni && (#[trigger] vb[q]).is_section
                            && #[trigger] child_of(vb, j, q) implies vb[q].pages.spec_len()
                        + vb[q].subsections.spec_len() >= 1 by {
                        assert(vb[j].path.0@ == vpre[p[j]].path.0@);
                        assert(p[j] > q) by {
                            if pg.holds(j) {
                                assert(pg.holds(p[j]));
                            } else if sec.holds(j) {
                                assert(sec.holds(p[j]));
                            } else {
                                assert(p[j] == j);
                            }
                        }
                        if q < i {
                            assert(!pg.holds(q) && !sec.holds(q));
                            assert(vb[q] == va[q] && va[q] == vpre[q]);
                            assert(child_of(vpre, p[j], q));
                        } else {
                            assert(vb[q].path.0@ == vpre[i as int].path.0@ && vb[q].slug@
                                == vpre[i as int].slug@);
                            assert(child_of(vpre, p[j], i as int));
                        }
                    }
                }
            }
            let ghost vmid = v@;
            let mut y = v.remove(i);
            y.id = i;
            v.insert(i, y);
            let ghost vnew = v@;
            proof {
                assert(vnew =~= vmid.update(i as int, vnew[i as int]));
                assert(page_core(vnew[i as int]) == page_core(vmid[i as int]));
                assert(vnew[i as int].parent == vmid[i as int].parent);
                assert(vnew[i as int].previous == vmid[i as int].previous);
                assert(vnew[i as int].next == vmid[i as int].next);
                assert(flats(vnew) =~= flats(vmid));
                // identity-changing one page breaks no claim about cores,
                // links or child tests
                assert forall|a: int, b: int, j: int|
                    #![trigger child_of(vnew, j, a), child_of(vnew, j, b)]
                    0 <= a < ni && 0 <= b < ni && a != b && 0 <= j < ni
                        && vnew[a].is_section && vnew[b].is_section implies !(child_of(vnew, j, a)
                    && child_of(vnew, j, b)) by {
                    assert(vnew[a].path.0@ == vmid[a].path.0@ && vnew[a].slug@ == vmid[a].slug@);
                    assert(vnew[b].path.0@ == vmid[b].path.0@ && vnew[b].slug@ == vmid[b].slug@);
                    assert(vnew[j].path.0@ == vmid[j].path.0@);
                    assert(vnew[a].is_section == vmid[a].is_section);
                    assert(vnew[b].is_section == vmid[b].is_section);
                    if child_of(vnew, j, a) && child_of(vnew, j, b) {
                        assert(child_of(vmid, j, a) && child_of(vmid, j, b));
                    }
                }
                assert forall|q: int, j: int|
                    0 <= q < i + 1 && q < j < ni && (#[trigger] vnew[q]).is_section
                        && #[trigger] child_of(vnew, j, q) implies vnew[q].pages.spec_len()
                    + vnew[q].subsections.spec_len() >= 1 by {
                    assert(vnew[q].pages == vmid[q].pages && vnew[q].subsections
                        == vmid[q].subsections);
                    assert(vnew[q].is_section == vmid[q].is_section);
                    assert(vnew[j].path.0@ == vmid[j].path.0@);
                    assert(vnew[q].path.0@ == vmid[q].path.0@ && vnew[q].slug@ == vmid[q].slug@);
                    assert(child_of(vmid, j, q));
                }
                assert forall|q: int|
                    0 <= q < i + 1 && (#[trigger] vnew[q]).is_section implies
                    external_section_done(vnew, q) by {
                    assert(vnew[q].pages == vmid[q].pages && vnew[q].subsections
                        == vmid[q].subsections);
                    assert(external_section_done(vmid, q));
                    let qpg = vmid[q].pages;
                    let qsec = vmid[q].subsections;
                    assert forall|j: int| #[trigger] qpg.holds(j) implies linked_at(vnew, j, q, qpg)
                        && !vnew[j].is_section && child_of(vnew, j, q) by {
                        assert(linked_at(vmid, j, q, qpg) && !vmid[j].is_section && child_of(
                            vmid,
                            j,
                            q,
                        ));
                        assert(vnew[j].parent == vmid[j].parent && vnew[j].previous
                            == vmid[j].previous && vnew[j].next == vmid[j].next);
                        assert(vnew[j].path.0@ == vmid[j].path.0@);
                        assert(vnew[q].path.0@ == vmid[q].path.0@ && vnew[q].slug@
                            == vmid[q].slug@);
                        assert(vnew[j].is_section == vmid[j].is_section);
                    }
                    assert forall|j: int| #[trigger] qsec.holds(j) implies linked_at(
                        vnew,
                        j,
                        q,
                        qsec,
                    ) && vnew[j].is_section && child_of(vnew, j, q) by {
                        assert(linked_at(vmid, j, q, qsec) && vmid[j].is_section && child_of(
                            vmid,
                            j,
                            q,
                        ));
                        assert(vnew[j].parent == vmid[j].parent && vnew[j].previous
                            == vmid[j].previous && vnew[j].next == vmid[j].next);
                        assert(vnew[j].path.0@ == vmid[j].path.0@);
                        assert(vnew[q].path.0@ == vmid[q].path.0@ && vnew[q].slug@
                            == vmid[q].slug@);
                        assert(vnew[j].is_section == vmid[j].is_section);
                    }
                    assert forall|aa: int, bb: int|
                        qpg.start <= aa < bb < qpg.end && vnew[q].sort_by_weight implies page_le(
                        SortMode::ByWeight,
                        #[trigger] vnew[aa],
                        #[trigger] vnew[bb],
                    ) by {
                        assert(vnew[q].sort_by_weight == vmid[q].sort_by_weight);
                        assert(page_le(SortMode::ByWeight, vmid[aa], vmid[bb]));
                        assert(vnew[aa].weight == vmid[aa].weight);
                        assert(vnew[bb].weight == vmid[bb].weight);
                    }
                    assert forall|aa: int, bb: int|
                        qsec.start <= aa < bb < qsec.end && vnew[q].sort_by_weight implies
                        page_le(SortMode::ByWeight, #[trigger] vnew[aa], #[trigger] vnew[bb]) by {
                        assert(vnew[q].sort_by_weight == vmid[q].sort_by_weight);
                        assert(page_le(SortMode::ByWeight, vmid[aa], vmid[bb]));
                        assert(vnew[aa].weight == vmid[aa].weight);
                        assert(vnew[bb].weight == vmid[bb].weight);
                    }
                }
            }
            i = i + 1;
        }
        Pages(v)
    }
}

/// Every page in a finished section's child ranges points back at that
/// section's identifier.
pub proof fn lemma_children_point_back(s: Seq<Page>, q: int, j: int)
    requires
        0 <= q < s.len(),
        s[q].id == q,
        section_fixed(s, q),
        s[q].pages.holds(j) || s[q].subsections.holds(j),
    ensures
        s[j].parent == s[q].id,
{
}

/// Where a section does not sort by weight, the pages of its child ranges
/// are non-increasing in date, a missing date counting as the minimum and
/// therefore sorting last.
pub proof fn lemma_dates_non_increasing(s: Seq<Page>, q: int, a: int, b: int)
    requires
        0 <= q < s.len(),
        section_fixed(s, q),
        !s[q].sort_by_weight,
        a <= b,
        (s[q].pages.holds(a) && s[q].pages.holds(b)) || (s[q].subsections.holds(a)
            && s[q].subsections.holds(b)),
    ensures
        spec_date_le(s[b].date, s[a].date),
{
}

/// The previous/next links of a finished range are the unique doubly linked
/// chain over it: any two finished states with the same ranges agree on
/// every link, the first having no previous and the last no next.
pub proof fn lemma_linking_unique(s: Seq<Page>, t: Seq<Page>, q: int, j: int)
    requires
        0 <= q < s.len(),
        0 <= q < t.len(),
        section_fixed(s, q),
        section_fixed(t, q),
        s[q].pages == t[q].pages,
        s[q].subsections == t[q].subsections,
        s[q].pages.holds(j) || s[q].subsections.holds(j),
    ensures
        s[j].previous == t[j].previous,
        s[j].next == t[j].next,
        s[j].parent == t[j].parent,
{
}

/// Two spans share an index.
pub open spec fn spans_overlap(a: Span, b: Span) -> bool {
    exists|j: int| a.holds(j) && #[trigger] b.holds(j)
}

/// Overlap is plain interval arithmetic.
proof fn lemma_overlap_arith(a: Span, b: Span)
    ensures
        spans_overlap(a, b) <==> (a.start < a.end && b.start < b.end && a.start < b.end
            && b.start < a.end),
{
    if a.start < a.end && b.start < b.end && a.start < b.end && b.start < a.end {
        let j: int = if a.start >= b.start {
            a.start as int
        } else {
            b.start as int
        };
        assert(a.holds(j) && b.holds(j));
    }
    if spans_overlap(a, b) {
        let j = choose|j: int| a.holds(j) && #[trigger] b.holds(j);
        assert(a.start < a.end && b.start < b.end && a.start < b.end && b.start < a.end);
    }
}

fn overlap_check(a: Span, b: Span) -> (r: bool)
    ensures
        r == spans_overlap(a, b),
{
    proof {
        lemma_overlap_arith(a, b);
    }
    a.start < a.end && b.start < b.end && a.start < b.end && b.start < a.end
}

/// Check the well-formedness of a scanned page list before building the
/// hierarchy from it: every child range beyond its owner and within bounds,
/// no two ranges overlapping, and a child's ranges beginning only after
/// both of its owner's ranges end.
pub fn pages_wf_check(pages: &Vec<Page>) -> (r: bool)
    ensures
        r == spans_wf(pages@),
{
    let n = pages.len();
    let mut i: usize = 0;
    while i < n
        invariant
            i <= n,
            n == pages@.len(),
            forall|m: int|
                0 <= m < i ==> span_ok((#[trigger] pages@[m]).pages, m, n as int) && span_ok(
                    pages@[m].subsections,
                    m,
                    n as int,
                ),
        decreases n - i,
    {
        let p = &pages[i];
        if !(p.pages.start <= p.pages.end && p.pages.end <= n && (p.pages.start >= p.pages.end
            || p.pages.start > i)) {
            return false;
        }
        if !(p.subsections.start <= p.subsections.end && p.subsections.end <= n && (
        p.subsections.start >= p.subsections.end || p.subsections.start > i)) {
            return false;
        }
        i = i + 1;
    }
    let mut i1: usize = 0;
    while i1 < n
        invariant
            i1 <= n,
            n == pages@.len(),
            forall|m: int|
                0 <= m < n ==> span_ok((#[trigger] pages@[m]).pages, m, n as int) && span_ok(
                    pages@[m].subsections,
                    m,
                    n as int,
                ),
            forall|m1: int, m2: int|
                0 <= m1 < i1 && 0 <= m2 < n ==> (m1 == m2 || !spans_overlap(
                    (#[trigger] pages@[m1]).pages,
                    (#[trigger] pages@[m2]).pages,
                )) && (m1 == m2 || !spans_overlap(pages@[m1].subsections, pages@[m2].subsections))
                    && !spans_overlap(pages@[m1].pages, pages@[m2].subsections) && !spans_overlap(
                    pages@[m2].pages,
                    pages@[m1].subsections,
                ),
            forall|m1: int, m2: int|
                0 <= m1 < i1 && (#[trigger] pages@[m1]).pages.holds(m2) ==> spans_after(
                    pages@[m1],
                    (#[trigger] pages@[m2]),
                ),
            forall|m1: int, m2: int|
                0 <= m1 < i1 && (#[trigger] pages@[m1]).subsections.holds(m2) ==> spans_after(
                    pages@[m1],
                    (#[trigger] pages@[m2]),
                ),
        decreases n - i1,
    {
        let mut i2: usize = 0;
        while i2 < n
            invariant
                i2 <= n,
                i1 < n,
                n == pages@.len(),
                forall|m: int|
                    0 <= m < n ==> span_ok((#[trigger] pages@[m]).pages, m, n as int) && span_ok(
                        pages@[m].subsections,
                        m,
                        n as int,
                    ),
                forall|m2: int|
                    0 <= m2 < i2 ==> (i1 == m2 || !spans_overlap(
                        pages@[i1 as int].pages,
                        (#[trigger] pages@[m2]).pages,
                    )) && (i1 == m2 || !spans_overlap(
                        pages@[i1 as int].subsections,
                        pages@[m2].subsections,
                    )) && !spans_overlap(pages@[i1 as int].pages, pages@[m2].subsections)
                        && !spans_overlap(pages@[m2].pages, pages@[i1 as int].subsections),
                forall|m2: int|
                    0 <= m2 < i2 && pages@[i1 as int].pages.holds(m2) ==> spans_after(
                        pages@[i1 as int],
                        (#[trigger] pages@[m2]),
                    ),
                forall|m2: int|
                    0 <= m2 < i2 && pages@[i1 as int].subsections.holds(m2) ==> spans_after(
                        pages@[i1 as int],
                        (#[trigger] pages@[m2]),
                    ),
            decreases n - i2,
        {
            let a = &pages[i1];
            let b = &pages[i2];
            if i1 != i2 && overlap_check(a.pages, b.pages) {
                proof {
                    let j = choose|j: int|
                        a.pages.holds(j) && #[trigger] b.pages.holds(j);
                    assert(pages@[i1 as int].pages.holds(j));
                    assert(pages@[i2 as int].pages.holds(j));
                }
                return false;
            }
            if i1 != i2 && overlap_check(a.subsections, b.subsections) {
                proof {
                    let j = choose|j: int|
                        a.subsections.holds(j) && #[trigger] b.subsections.holds(j);
                    assert(pages@[i1 as int].subsections.holds(j));
                    assert(pages@[i2 as int].subsections.holds(j));
                }
                return false;
            }
            if overlap_check(a.pages, b.subsections) {
                proof {
                    let j = choose|j: int|
                        a.pages.holds(j) && #[trigger] b.subsections.holds(j);
                    assert(pages@[i1 as int].pages.holds(j));
                    assert(pages@[i2 as int].subsections.holds(j));
                }
                return false;
            }
            if overlap_check(b.pages, a.subsections) {
                proof {
                    let j = choose|j: int|
                        b.pages.holds(j) && #[trigger] a.subsections.holds(j);
                    assert(pages@[i2 as int].pages.holds(j));
                    assert(pages@[i1 as int].subsections.holds(j));
                }
                return false;
            }
            let member_pg = a.pages.start <= i2 && i2 < a.pages.end;
            let member_sec = a.subsections.start <= i2 && i2 < a.subsections.end;
            if member_pg || member_sec {
                let ok1 = b.pages.start >= b.pages.end || (b.pages.start >= a.pages.end
                    && b.pages.start >= a.subsections.end);
                let ok2 = b.subsections.start >= b.subsections.end || (b.subsections.start
                    >= a.pages.end && b.subsections.start >= a.subsections.end);
                if !(ok1 && ok2) {
                    proof {
                        if member_pg {
                            assert(pages@[i1 as int].pages.holds(i2 as int));
                        } else {
                            assert(pages@[i1 as int].subsections.holds(i2 as int));
                        }
                        assert(!spans_after(pages@[i1 as int], pages@[i2 as int]));
                    }
                    return false;
                }
            }
            i2 = i2 + 1;
        }
        i1 = i1 + 1;
    }
    proof {
        assert forall|x1: int, x2: int, j: int|
            0 <= x1 < n && 0 <= x2 < n && (#[trigger] pages@[x1].pages.holds(j)) && (
        #[trigger] pages@[x2].pages.holds(j)) implies x1 == x2 by {
            if x1 != x2 {
                assert(spans_overlap(pages@[x1].pages, pages@[x2].pages));
            }
        }
        assert forall|x1: int, x2: int, j: int|
            0 <= x1 < n && 0 <= x2 < n && (#[trigger] pages@[x1].subsections.holds(j)) && (
        #[trigger] pages@[x2].subsections.holds(j)) implies x1 == x2 by {
            if x1 != x2 {
                assert(spans_overlap(pages@[x1].subsections, pages@[x2].subsections));
            }
        }
        assert forall|x1: int, x2: int, j: int|
            0 <= x1 < n && 0 <= x2 < n implies !((#[trigger] pages@[x1].pages.holds(j)) && (
        #[trigger] pages@[x2].subsections.holds(j))) by {
            if pages@[x1].pages.holds(j) && pages@[x2].subsections.holds(j) {
                assert(spans_overlap(pages@[x1].pages, pages@[x2].subsections));
            }
        }
    }
    true
}

/// The immediate-child test against the section at `i`.
fn is_child_exec(v: &Vec<Page>, j: usize, i: usize) -> (r: bool)
    requires
        j < v@.len(),
        i < v@.len(),
    ensures
        r == child_of(v@, j as int, i as int),
{
    crate::strutil::is_subpage(
        v[j].path.0.as_str(),
        v[i].path.0.as_str(),
        v[i].slug.as_str(),
    )
}

} // verus!
