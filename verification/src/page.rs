//! The page data model: one flat record per source document, plus the
//! normalization applied after parsing and the permalink computation.

use vstd::prelude::*;
use vstd::string::*;
use crate::sources::Source;
use crate::strutil::{dirname, dirname_exec, last_seg, last_seg_exec, strs_eq};
use crate::types::{spec_parse_date10, parse_date_prefix, Ancestors, DateTime, Order, Span};

verus! {

/// A single picture on a page.
#[derive(Debug)]
pub struct Picture {
    /// An alternative text displayed when the image can't be loaded.
    pub alt: String,
    /// An associated caption of the picture.
    pub caption: String,
    /// File name of the image.
    pub file: String,
    /// Id string of the picture, used for the generated URL in the gallery.
    pub pid: String,
    /// Date and time of when the image was taken.
    pub taken: Option<DateTime>,
}

/// One name-to-values tag assignment of a page.
#[derive(Debug)]
pub struct TagAssignment {
    /// The taxonomy this assignment belongs to.
    pub name: String,
    /// The values the page carries under that taxonomy.
    pub values: Vec<String>,
}

/// All the information regarding one page.
#[derive(Debug)]
pub struct Page {
    /// Title of the page.
    pub title: String,
    /// The file name this page is rendered into, without the `.html` extension.
    pub slug: String,
    /// The path in the output directory this page is rendered into.
    pub path: Ancestors,
    /// Alternative paths to also render this page in, relative to the output directory.
    pub alternative_paths: Vec<String>,
    /// A weight of the page, used if a collection this page is in is sorted by weight.
    pub weight: i64,
    /// A template to render this page with; empty means inherited.
    pub template: String,
    /// A template to render every subpage with (unless it specifies another).
    pub page_template: String,
    /// A template to render every subsection with (unless it specifies another).
    pub section_template: String,
    /// A template to render the gallery pictures with.
    pub gallery_template: String,
    /// Paginate subpages by this number if it is exceeded; `0` means never.
    pub paginate_by: usize,
    /// An image representing the page.
    pub image: String,
    /// A brief summary of the page content.
    pub summary: String,
    /// The main content of the page.
    pub content: String,
    /// Date when the page was created.
    pub date: Option<DateTime>,
    /// Whether to sort subpages and subsections by their provided weight.
    pub sort_by_weight: bool,
    /// Is this page a section?
    pub is_section: bool,
    /// Hide the page from the list of its parent's subpages or subsections.
    pub hidden: bool,
    /// The range of this page's subpages in the flat page array.
    pub pages: Span,
    /// The range of this page's subsections in the flat page array.
    pub subsections: Span,
    /// Index of the parent section in the flat page array.
    pub parent: usize,
    /// Index of the previous sibling; `0` means none.
    pub previous: usize,
    /// Index of the next sibling; `0` means none.
    pub next: usize,
    /// Whether the page's output directory must be created explicitly.
    pub nonstandard_path: bool,
    /// A list of pictures associated with this page.
    pub pictures: Vec<Picture>,
    /// The tag assignments classifying this page.
    pub taxonomies: Vec<TagAssignment>,
    /// A list of plugins to use to transform the content of this page.
    pub plugins: Vec<String>,
    /// A unique number to determine whether this is the active page.
    pub id: usize,
}

/// The default template of subpages.
pub fn def_page() -> (r: String)
    ensures
        r@ == "page.html"@,
{
    String::from_str("page.html")
}

/// The default template of subsections.
pub fn def_section() -> (r: String)
    ensures
        r@ == "section.html"@,
{
    String::from_str("section.html")
}

/// The default template of gallery pictures.
pub fn def_gallery() -> (r: String)
    ensures
        r@ == "gallery.html"@,
{
    String::from_str("gallery.html")
}

/// Is this the default subpage template?
pub fn eq_def_page(c: &str) -> (r: bool)
    ensures
        r == (c@ == "page.html"@),
{
    strs_eq(c, "page.html")
}

/// Is this the default subsection template?
pub fn eq_def_sect(c: &str) -> (r: bool)
    ensures
        r == (c@ == "section.html"@),
{
    strs_eq(c, "section.html")
}

/// Is this the default gallery template?
pub fn eq_def_gall(c: &str) -> (r: bool)
    ensures
        r == (c@ == "gallery.html"@),
{
    strs_eq(c, "gallery.html")
}

impl Page {
    /// A page with every front-matter field at its parser default.
    pub fn empty() -> (r: Page)
        ensures
            r.title@.len() == 0,
            r.slug@.len() == 0,
            r.path.0@.len() == 0,
            r.alternative_paths@.len() == 0,
            r.weight == 0,
            r.template@.len() == 0,
            r.page_template@ == "page.html"@,
            r.section_template@ == "section.html"@,
            r.gallery_template@ == "gallery.html"@,
            r.paginate_by == 0,
            r.image@.len() == 0,
            r.summary@.len() == 0,
            r.content@.len() == 0,
            r.date is None,
            !r.sort_by_weight,
            !r.is_section,
            !r.hidden,
            r.pages == (Span { start: 0, end: 0 }),
            r.subsections == (Span { start: 0, end: 0 }),
            r.parent == 0,
            r.previous == 0,
            r.next == 0,
            r.nonstandard_path,
            r.pictures@.len() == 0,
            r.taxonomies@.len() == 0,
            r.plugins@.len() == 0,
            r.id == 0,
    {
        Page {
            title: String::new(),
            slug: String::new(),
            path: Ancestors(String::new()),
            alternative_paths: Vec::new(),
            weight: 0,
            template: String::new(),
            page_template: def_page(),
            section_template: def_section(),
            gallery_template: def_gallery(),
            paginate_by: 0,
            image: String::new(),
            summary: String::new(),
            content: String::new(),
            date: Option::None,
            sort_by_weight: false,
            is_section: false,
            hidden: false,
            pages: Span { start: 0, end: 0 },
            subsections: Span { start: 0, end: 0 },
            parent: 0,
            previous: 0,
            next: 0,
            nonstandard_path: true,
            pictures: Vec::new(),
            taxonomies: Vec::new(),
            plugins: Vec::new(),
            id: 0,
        }
    }

    /// Finish a freshly parsed draft into a page of the tree: take over the
    /// scanner record's hierarchy data, fall back for a missing date to a
    /// `YYYY-MM-DD` prefix of the file stem and then to the file's creation
    /// time, and default the slug and the output path from the source path.
    pub fn new(draft: Page, source: &Source, path: &str) -> (r: Page)
        ensures
            r.is_section == source.is_section,
            r.pages == source.pages,
            r.subsections == source.subsections,
            r.parent == source.parent,
            r.date == ({
                let stem = last_seg(path@);
                if draft.date is Some {
                    draft.date
                } else if spec_parse_date10(stem) is Some {
                    spec_parse_date10(stem)
                } else {
                    source.date
                }
            }),
            r.slug@ == if source.is_section || draft.slug@.len() == 0 || draft.slug@.contains('/') {
                last_seg(path@)
            } else {
                draft.slug@
            },
            r.path.0@ == if source.is_section || draft.path.0@.len() == 0 || (draft.path.0@.len()
                > 0 && draft.path.0@[0] == '/') {
                dirname(path@)
            } else if draft.path.0@ == "."@ {
                Seq::<char>::empty()
            } else {
                draft.path.0@
            },
            r.nonstandard_path == if source.is_section || draft.path.0@.len() == 0 || (
            draft.path.0@.len() > 0 && draft.path.0@[0] == '/') {
                false
            } else {
                draft.nonstandard_path
            },
            r.title == draft.title,
            r.alternative_paths == draft.alternative_paths,
            r.weight == draft.weight,
            r.template == draft.template,
            r.page_template == draft.page_template,
            r.section_template == draft.section_template,
            r.gallery_template == draft.gallery_template,
            r.paginate_by == draft.paginate_by,
            r.image == draft.image,
            r.summary == draft.summary,
            r.content == draft.content,
            r.sort_by_weight == draft.sort_by_weight,
            r.hidden == draft.hidden,
            r.previous == draft.previous,
            r.next == draft.next,
            r.pictures == draft.pictures,
            r.taxonomies == draft.taxonomies,
            r.plugins == draft.plugins,
            r.id == draft.id,
    {
        let mut page = draft;
        let is_section = source.is_section;
        page.is_section = is_section;
        page.pages = source.pages;
        page.subsections = source.subsections;
        page.parent = source.parent;

        let stem = last_seg_exec(path);
        if page.date.is_none() {
            page.date = match parse_date_prefix(stem.as_str()) {
                Option::Some(d) => Option::Some(d),
                Option::None => source.date,
            };
        }

        if is_section || page.slug.as_str().unicode_len() == 0 || has_sep(page.slug.as_str()) {
            page.slug = stem;
        }

        let ppath_empty = page.path.0.as_str().unicode_len() == 0;
        let ppath_abs = !ppath_empty && page.path.0.as_str().get_char(0) == '/';
        if is_section || ppath_empty || ppath_abs {
            page.path = Ancestors(dirname_exec(path));
            page.nonstandard_path = false;
        } else if strs_eq(page.path.0.as_str(), ".") {
            page.path = Ancestors(String::new());
        }
        page
    }
}

/// Does the string contain a separator?
fn has_sep(s: &str) -> (r: bool)
    ensures
        r == s@.contains('/'),
{
    let n = s.unicode_len();
    let mut i: usize = 0;
    while i < n
        invariant
            i <= n,
            n == s@.len(),
            forall|j: int| 0 <= j < i ==> s@[j] != '/',
        decreases n - i,
    {
        if s.get_char(i) == '/' {
            proof {
                assert(s@[i as int] == '/');
            }
            return true;
        }
        i = i + 1;
    }
    proof {
        if s@.contains('/') {
            let w = choose|w: int| 0 <= w < s@.len() && s@[w] == '/';
            assert(s@[w] != '/');
        }
    }
    false
}

/// The full link of a page: the site URL, the page's path and slug, and a
/// trailing separator for a section or `.html` for a plain page.
pub open spec fn spec_permalink(
    url: Seq<char>,
    path: Seq<char>,
    slug: Seq<char>,
    is_section: bool,
) -> Seq<char> {
    url + (if path.len() > 0 {
        "/"@ + path
    } else {
        Seq::<char>::empty()
    }) + (if slug.len() > 0 {
        "/"@ + slug
    } else {
        Seq::<char>::empty()
    }) + (if is_section {
        "/"@
    } else {
        ".html"@
    })
}

/// Build the permalink of a page.
pub fn permalink(url: &str, path: &str, slug: &str, is_section: bool) -> (r: String)
    ensures
        r@ == spec_permalink(url@, path@, slug@, is_section),
{
    let mut s = String::from_str(url);
    if path.unicode_len() > 0 {
        s.append("/");
        s.append(path);
    }
    if slug.unicode_len() > 0 {
        s.append("/");
        s.append(slug);
    }
    if is_section {
        s.append("/");
    } else {
        s.append(".html");
    }
    s
}

/// The canonical order of a flat page list, the one `Pages::from_external`
/// expects its input in: by output path, component-wise; on equal paths
/// sections before plain pages, sections among themselves by slug, plain
/// pages among themselves by date, newest first.
pub open spec fn spec_page_cmp(a: Page, b: Page) -> Order {
    match crate::strutil::cmp_paths(a.path.0@, b.path.0@) {
        Order::Less => Order::Less,
        Order::Greater => Order::Greater,
        Order::Equal => match (a.is_section, b.is_section) {
            (true, true) => crate::strutil::cmp_chars(a.slug@, b.slug@),
            (true, false) => Order::Less,
            (false, true) => Order::Greater,
            (false, false) => if a.date == b.date {
                Order::Equal
            } else if crate::types::spec_date_le(a.date, b.date) {
                Order::Greater
            } else {
                Order::Less
            },
        },
    }
}

impl Page {
    /// Compare two pages by the canonical order.
    pub fn cmp(&self, other: &Page) -> (r: Order)
        ensures
            r == spec_page_cmp(*self, *other),
    {
        match crate::strutil::cmp_paths_exec(self.path.0.as_str(), other.path.0.as_str()) {
            Order::Less => Order::Less,
            Order::Greater => Order::Greater,
            Order::Equal => match (self.is_section, other.is_section) {
                (true, true) => crate::strutil::cmp_chars_exec(
                    self.slug.as_str(),
                    other.slug.as_str(),
                ),
                (true, false) => Order::Less,
                (false, true) => Order::Greater,
                (false, false) => {
                    let eq = match (&self.date, &other.date) {
                        (Option::None, Option::None) => true,
                        (Option::Some(x), Option::Some(y)) => *x == *y,
                        _ => false,
                    };
                    if eq {
                        Order::Equal
                    } else if crate::types::date_le(&self.date, &other.date) {
                        Order::Greater
                    } else {
                        Order::Less
                    }
                },
            },
        }
    }

    /// This page's permalink under the given site URL.
    pub fn permalink(&self, url: &str) -> (r: String)
        ensures
            r@ == spec_permalink(url@, self.path.0@, self.slug@, self.is_section),
    {
        permalink(url, self.path.0.as_str(), self.slug.as_str(), self.is_section)
    }
}

} // verus!
