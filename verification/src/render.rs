//! Planning the render of one page: which output files are written, with
//! which template, and from which slice of the page's children. Expanding
//! the templates and writing the files is the binary's work; every path and
//! every split decided here is exact.

use vstd::prelude::*;
use vstd::string::*;
use crate::page::Page;
use crate::paginate::{paginate_spans, paginates, Pagination};
use crate::types::Span;

verus! {

/// Join two output-relative path fragments with a separator, letting an
/// empty fragment disappear.
pub open spec fn spec_rel_join(a: Seq<char>, b: Seq<char>) -> Seq<char> {
    if b.len() == 0 {
        a
    } else if a.len() == 0 {
        b
    } else {
        a + "/"@ + b
    }
}

/// Join two path fragments.
pub fn rel_join(a: &str, b: &str) -> (r: String)
    ensures
        r@ == spec_rel_join(a@, b@),
{
    if b.unicode_len() == 0 {
        String::from_str(a)
    } else if a.unicode_len() == 0 {
        String::from_str(b)
    } else {
        let mut s = String::from_str(a);
        s.append("/");
        s.append(b);
        s
    }
}

/// Where a page's main render is written, relative to the output root: its
/// path and slug, a section keeping an `index.html` inside its directory.
pub open spec fn spec_output_path(p: Page) -> Seq<char> {
    if p.is_section {
        spec_rel_join(spec_rel_join(p.path.0@, p.slug@), "index"@) + ".html"@
    } else {
        spec_rel_join(p.path.0@, p.slug@) + ".html"@
    }
}

/// The directory later pagination units of the page land in.
pub open spec fn spec_paged_dir(p: Page) -> Seq<char> {
    if p.is_section {
        spec_rel_join(p.path.0@, p.slug@)
    } else {
        p.path.0@
    }
}

/// The directory a page's gallery pictures are rendered into.
pub open spec fn spec_gallery_dir(p: Page) -> Seq<char> {
    spec_rel_join(p.path.0@, p.slug@)
}

/// The output path of one page.
pub fn output_path(p: &Page) -> (r: String)
    ensures
        r@ == spec_output_path(*p),
{
    let base = rel_join(p.path.0.as_str(), p.slug.as_str());
    let mut out = if p.is_section {
        rel_join(base.as_str(), "index")
    } else {
        base
    };
    out.append(".html");
    out
}

/// The template a page is rendered with: its own, or the one its parent
/// section declares for subsections or subpages.
pub open spec fn spec_resolve_template(s: Seq<Page>, i: int) -> Seq<char> {
    if s[i].template@.len() > 0 {
        s[i].template@
    } else if s[i].is_section {
        s[s[i].parent as int].section_template@
    } else {
        s[s[i].parent as int].page_template@
    }
}

/// Resolve the template name of the page at `i`.
pub fn resolve_template(pages: &Vec<Page>, i: usize) -> (r: String)
    requires
        i < pages@.len(),
        pages@[i as int].parent < pages@.len(),
    ensures
        r@ == spec_resolve_template(pages@, i as int),
{
    if pages[i].template.as_str().unicode_len() > 0 {
        pages[i].template.clone()
    } else if pages[i].is_section {
        pages[pages[i].parent].section_template.clone()
    } else {
        pages[pages[i].parent].page_template.clone()
    }
}

/// The decimal digits of `n`.
pub open spec fn spec_decimal(n: int) -> Seq<char>
    decreases n,
{
    if n < 10 {
        digit_seq(n)
    } else {
        spec_decimal(n / 10) + digit_seq(n % 10)
    }
}

/// One decimal digit.
pub open spec fn digit_seq(d: int) -> Seq<char> {
    if d == 0 {
        "0"@
    } else if d == 1 {
        "1"@
    } else if d == 2 {
        "2"@
    } else if d == 3 {
        "3"@
    } else if d == 4 {
        "4"@
    } else if d == 5 {
        "5"@
    } else if d == 6 {
        "6"@
    } else if d == 7 {
        "7"@
    } else if d == 8 {
        "8"@
    } else {
        "9"@
    }
}

/// Write a number in decimal.
pub fn decimal(n: usize) -> (r: String)
    ensures
        r@ == spec_decimal(n as int),
    decreases n,
{
    if n < 10 {
        let d: &str = match n {
            0 => "0",
            1 => "1",
            2 => "2",
            3 => "3",
            4 => "4",
            5 => "5",
            6 => "6",
            7 => "7",
            8 => "8",
            _ => "9",
        };
        String::from_str(d)
    } else {
        let mut s = decimal(n / 10);
        let d: &str = match n % 10 {
            0 => "0",
            1 => "1",
            2 => "2",
            3 => "3",
            4 => "4",
            5 => "5",
            6 => "6",
            7 => "7",
            8 => "8",
            _ => "9",
        };
        s.append(d);
        s
    }
}

/// Where pagination unit `k` (1-based) of the page is written: the first
/// unit at the page's own output path, later units as numbered siblings in
/// the page's directory.
pub open spec fn spec_unit_path(p: Page, k: int) -> Seq<char> {
    if k == 1 {
        spec_output_path(p)
    } else {
        spec_rel_join(spec_paged_dir(p), spec_decimal(k)) + ".html"@
    }
}

/// The output path of pagination unit `k`.
pub fn unit_path(p: &Page, k: usize) -> (r: String)
    requires
        k >= 1,
    ensures
        r@ == spec_unit_path(*p, k as int),
{
    if k == 1 {
        output_path(p)
    } else {
        let dir = if p.is_section {
            rel_join(p.path.0.as_str(), p.slug.as_str())
        } else {
            String::from_str(p.path.0.as_str())
        };
        let num = decimal(k);
        let mut out = rel_join(dir.as_str(), num.as_str());
        out.append(".html");
        out
    }
}

/// Where the gallery page of one picture is written.
pub open spec fn spec_pic_path(p: Page, pid: Seq<char>) -> Seq<char> {
    spec_rel_join(spec_gallery_dir(p), pid) + ".html"@
}

/// The output path of one gallery picture.
pub fn pic_path(p: &Page, pid: &str) -> (r: String)
    ensures
        r@ == spec_pic_path(*p, pid@),
{
    let dir = rel_join(p.path.0.as_str(), p.slug.as_str());
    let mut out = rel_join(dir.as_str(), pid);
    out.append(".html");
    out
}

/// Where an alternative render of the page is written.
pub open spec fn spec_alt_path(alt: Seq<char>) -> Seq<char> {
    alt + "/index.html"@
}

/// The output path of one alternative render.
pub fn alt_path(alt: &str) -> (r: String)
    ensures
        r@ == spec_alt_path(alt@),
{
    let mut out = String::from_str(alt);
    out.append("/index.html");
    out
}

/// One output file of a page's render.
#[derive(Debug)]
pub enum RenderUnit {
    /// The page rendered once, whole.
    Single {
        /// Where the file is written.
        out: String,
        /// The template that renders it.
        template: String,
    },
    /// One pagination unit, seeing only a slice of the page's children.
    Paged {
        /// Where the file is written.
        out: String,
        /// The template that renders it.
        template: String,
        /// The slice of children this unit shows.
        span: Span,
        /// The unit's position descriptor.
        pagination: Pagination,
    },
    /// The gallery page of one picture, linked circularly to its neighbours.
    GalleryPic {
        /// Where the file is written.
        out: String,
        /// The template that renders it.
        template: String,
        /// Which picture this page shows.
        picture: usize,
        /// The picture shown as previous, wrapping around.
        previous: usize,
        /// The picture shown as next, wrapping around.
        next: usize,
    },
}

/// Is this a whole render of the page at `out` with template `tpl`?
pub open spec fn single_unit_ok(u: RenderUnit, o: Seq<char>, tpl: Seq<char>) -> bool {
    u matches RenderUnit::Single { out, template } && out@ == o && template@ == tpl
}

/// Is this pagination unit `k1` of page `p`, showing `sp` with descriptor `pg`?
pub open spec fn paged_unit_ok(
    u: RenderUnit,
    p: Page,
    tpl: Seq<char>,
    k1: int,
    sp: Span,
    pg: Pagination,
) -> bool {
    u matches RenderUnit::Paged { out, template, span, pagination } && out@ == spec_unit_path(
        p,
        k1,
    ) && template@ == tpl && span == sp && pagination == pg
}

/// Is this the gallery page of picture `pic` of page `p`, with the given
/// ring neighbours?
pub open spec fn gallery_unit_ok(u: RenderUnit, p: Page, pic: int, prev: int, nxt: int) -> bool {
    u matches RenderUnit::GalleryPic { out, template, picture, previous, next } && picture == pic
        && out@ == spec_pic_path(p, p.pictures@[pic].pid@) && template@ == p.gallery_template@
        && previous == prev && next == nxt
}

/// The span and descriptor of one pagination unit; a unit of another kind
/// reads as empty.
pub open spec fn unit_slice(u: RenderUnit) -> (Span, Pagination) {
    match u {
        RenderUnit::Paged { span, pagination, .. } => (span, pagination),
        _ => (
            Span { start: 0, end: 0 },
            Pagination { previous: Option::None, next: Option::None, current: 0, length: 0 },
        ),
    }
}

/// The unit slices of a render plan prefix.
pub open spec fn plan_slices(r: Seq<RenderUnit>, main: int) -> Seq<(Span, Pagination)> {
    Seq::new(main as nat, |k: int| unit_slice(r[k]))
}

/// Whether the page's children are split into pagination units.
pub open spec fn spec_paginates_children(p: Page) -> bool {
    p.paginate_by > 0 && p.pages.spec_len() > p.paginate_by
}

/// What `render_units` promises: the plan's tail holds one whole render
/// per declared alternative path; before that come either the pagination
/// units (when the subpage count exceeds the page size) or the page itself
/// followed by one circularly linked gallery page per picture.
pub open spec fn plan_matches(r: Seq<RenderUnit>, s: Seq<Page>, i: int) -> bool {
    let p = s[i];
    let tpl = spec_resolve_template(s, i);
    let alts = p.alternative_paths@.len() as int;
    let main = r.len() - alts;
    &&& r.len() >= alts
    &&& forall|k: int|
        main <= k < r.len() ==> single_unit_ok(
            #[trigger] r[k],
            spec_alt_path(p.alternative_paths@[k - main]@),
            tpl,
        )
    &&& if spec_paginates_children(p) {
        &&& main >= 1
        &&& forall|k: int|
            0 <= k < main ==> paged_unit_ok(
                #[trigger] r[k],
                p,
                tpl,
                k + 1,
                unit_slice(r[k]).0,
                unit_slice(r[k]).1,
            )
        &&& paginates(
            plan_slices(r, main),
            p.pages.start as int,
            p.pages.end as int,
            if p.paginate_by < p.pages.spec_len() {
                p.paginate_by as int
            } else {
                p.pages.spec_len()
            },
        )
    } else {
        &&& main == 1 + p.pictures@.len()
        &&& single_unit_ok(r[0], spec_output_path(p), tpl)
        &&& forall|k: int|
            1 <= k < main ==> gallery_unit_ok(
                #[trigger] r[k],
                p,
                k - 1,
                if k == 1 {
                    p.pictures@.len() - 1
                } else {
                    k - 2
                },
                if k == main - 1 {
                    0int
                } else {
                    k
                },
            )
    }
}

/// Plan every output file of the page at `i`: its pagination units if its
/// subpage count exceeds its page size, else the page itself followed by
/// one gallery page per picture if it has any; and one more copy per
/// declared alternative path. Templates are resolved here; whether a
/// template of that name exists is the renderer's concern.
pub fn render_units(pages: &Vec<Page>, i: usize) -> (r: Vec<RenderUnit>)
    requires
        i < pages@.len(),
        pages@[i as int].parent < pages@.len(),
        pages@[i as int].pages.start <= pages@[i as int].pages.end,
    ensures
        plan_matches(r@, pages@, i as int),
{
    let tpl = resolve_template(pages, i);
    let mut r: Vec<RenderUnit> = Vec::new();
    let p = &pages[i];
    let by = p.paginate_by;
    let count = p.pages.end - p.pages.start;
    let paged = by > 0 && count > by;
    if paged {
        let units = paginate_spans(p.pages.start, p.pages.end, by);
        let nu = units.len();
        let mut k: usize = 0;
        while k < nu
            invariant
                k <= nu,
                nu == units@.len(),
                r@.len() == k,
                i < pages@.len(),
                *p == pages@[i as int],
                tpl@ == spec_resolve_template(pages@, i as int),
                forall|m: int|
                    0 <= m < k ==> paged_unit_ok(
                        #[trigger] r@[m],
                        pages@[i as int],
                        tpl@,
                        m + 1,
                        units@[m].0,
                        units@[m].1,
                    ),
            decreases nu - k,
        {
            let u = units[k];
            r.push(
                RenderUnit::Paged {
                    out: unit_path(p, k + 1),
                    template: tpl.clone(),
                    span: u.0,
                    pagination: u.1,
                },
            );
            k = k + 1;
        }
        proof {
            assert(plan_slices(r@, r@.len() as int) =~= units@);
        }
    } else if p.pictures.len() > 0 {
        r.push(RenderUnit::Single { out: output_path(p), template: tpl.clone() });
        let np = p.pictures.len();
        let last = np - 1;
        let mut k: usize = 0;
        while k < np
            invariant
                k <= np,
                np == pages@[i as int].pictures@.len(),
                np >= 1,
                last == np - 1,
                r@.len() == 1 + k,
                i < pages@.len(),
                *p == pages@[i as int],
                tpl@ == spec_resolve_template(pages@, i as int),
                single_unit_ok(r@[0], spec_output_path(pages@[i as int]), tpl@),
                forall|m: int|
                    1 <= m < 1 + k ==> gallery_unit_ok(
                        #[trigger] r@[m],
                        pages@[i as int],
                        m - 1,
                        if m == 1 {
                            np - 1
                        } else {
                            m - 2
                        },
                        if m - 1 == np - 1 {
                            0int
                        } else {
                            m
                        },
                    ),
            decreases np - k,
        {
            let prev = if k == 0 {
                last
            } else {
                k - 1
            };
            let nxt = if k == last {
                0
            } else {
                k + 1
            };
            r.push(
                RenderUnit::GalleryPic {
                    out: pic_path(p, p.pictures[k].pid.as_str()),
                    template: p.gallery_template.clone(),
                    picture: k,
                    previous: prev,
                    next: nxt,
                },
            );
            k = k + 1;
        }
    } else {
        r.push(RenderUnit::Single { out: output_path(p), template: tpl.clone() });
    }
    let ghost main = r@.len() as int;
    let ghost pre_alt = r@;
    let na = p.alternative_paths.len();
    let mut a: usize = 0;
    while a < na
        invariant
            a <= na,
            na == pages@[i as int].alternative_paths@.len(),
            r@.len() == main + a,
            main >= 0,
            main == pre_alt.len(),
            i < pages@.len(),
            *p == pages@[i as int],
            tpl@ == spec_resolve_template(pages@, i as int),
            forall|m: int| 0 <= m < main ==> #[trigger] r@[m] == pre_alt[m],
            forall|m: int|
                main <= m < main + a ==> single_unit_ok(
                    #[trigger] r@[m],
                    spec_alt_path(pages@[i as int].alternative_paths@[m - main]@),
                    tpl@,
                ),
        decreases na - a,
    {
        r.push(
            RenderUnit::Single {
                out: alt_path(p.alternative_paths[a].as_str()),
                template: tpl.clone(),
            },
        );
        a = a + 1;
    }
    r
}

} // verus!
