use blades::hierarchy::{external_input_ok, pages_wf_check, Pages};
use blades::page::Page;
use blades::types::{DateTime, Order, Span};

fn date(y: i32, m: u8, d: u8) -> DateTime {
    DateTime { year: y, month: m, day: d, hour: 0, minute: 0, second: 0 }
}

fn page(slug: &str, path: &str, section: bool) -> Page {
    let mut p = Page::empty();
    p.slug = slug.to_string();
    p.path = blades::types::Ancestors(path.to_string());
    p.is_section = section;
    p
}

/// The worked example: a root section with two dated pages and one
/// subsection holding one page, in scanner order.
fn sample_tree() -> Vec<Page> {
    let mut root = page("content", "", true);
    root.pages = Span { start: 1, end: 3 };
    root.subsections = Span { start: 3, end: 4 };

    let mut p1 = page("p1", "content", false);
    p1.parent = 0;
    p1.date = Some(date(2021, 1, 1));
    p1.weight = 2;

    let mut p2 = page("p2", "content", false);
    p2.parent = 0;
    p2.date = Some(date(2022, 6, 15));
    p2.weight = 1;

    let mut a = page("a", "content", true);
    a.parent = 0;
    a.pages = Span { start: 4, end: 5 };

    let mut x = page("x", "content/a", false);
    x.parent = 3;
    x.date = Some(date(2020, 3, 3));

    vec![root, p1, p2, a, x]
}

#[test]
fn from_sources_sorts_links_and_numbers() {
    let input = sample_tree();
    assert!(pages_wf_check(&input));
    let built = Pages::from_sources(input);
    let v = &built.0;
    // ids are positions
    for (i, p) in v.iter().enumerate() {
        assert_eq!(p.id, i);
    }
    // dates sort descending: p2 (2022) before p1 (2021)
    assert_eq!(v[1].slug, "p2");
    assert_eq!(v[2].slug, "p1");
    // every child's parent is its section's id
    assert_eq!(v[1].parent, 0);
    assert_eq!(v[2].parent, 0);
    assert_eq!(v[3].parent, 0);
    assert_eq!(v[4].parent, 3);
    // sibling links chain through the range, sentinel 0 at the ends
    assert_eq!(v[1].previous, 0);
    assert_eq!(v[1].next, 2);
    assert_eq!(v[2].previous, 1);
    assert_eq!(v[2].next, 0);
    assert_eq!(v[3].previous, 0);
    assert_eq!(v[3].next, 0);
    assert_eq!(v[4].previous, 0);
    assert_eq!(v[4].next, 0);
    // ranges are untouched
    assert_eq!(v[0].pages, Span { start: 1, end: 3 });
    assert_eq!(v[0].subsections, Span { start: 3, end: 4 });
}

#[test]
fn missing_dates_sort_last() {
    let mut root = page("content", "", true);
    root.pages = Span { start: 1, end: 3 };
    let mut undated = page("undated", "content", false);
    undated.parent = 0;
    let mut dated = page("dated", "content", false);
    dated.parent = 0;
    dated.date = Some(date(2000, 1, 1));
    let input = vec![root, undated, dated];
    assert!(pages_wf_check(&input));
    let built = Pages::from_sources(input);
    assert_eq!(built.0[1].slug, "dated");
    assert_eq!(built.0[2].slug, "undated");
}

#[test]
fn weight_sort_when_asked() {
    let mut root = page("content", "", true);
    root.pages = Span { start: 1, end: 3 };
    root.sort_by_weight = true;
    let mut heavy = page("heavy", "content", false);
    heavy.weight = 9;
    let mut light = page("light", "content", false);
    light.weight = 1;
    let input = vec![root, heavy, light];
    assert!(pages_wf_check(&input));
    let built = Pages::from_sources(input);
    assert_eq!(built.0[1].slug, "light");
    assert_eq!(built.0[2].slug, "heavy");
}

#[test]
fn wf_check_rejects_overlapping_ranges() {
    let mut root = page("content", "", true);
    root.pages = Span { start: 1, end: 3 };
    let mut other = page("other", "content", true);
    other.pages = Span { start: 2, end: 3 };
    let a = page("a", "content", false);
    let input = vec![root, other, a];
    assert!(!pages_wf_check(&input));
}

#[test]
fn canonical_order_of_pages() {
    let root = page("content", "", true);
    let sect = page("a", "content", true);
    let mut newer = page("new", "content", false);
    newer.date = Some(date(2022, 1, 1));
    let mut older = page("old", "content", false);
    older.date = Some(date(2021, 1, 1));
    let deep = page("x", "content/a", false);
    // ancestors first, sections before pages, newer pages first,
    // descendants after all entries of the parent directory
    assert_eq!(root.cmp(&sect), Order::Less);
    assert_eq!(sect.cmp(&newer), Order::Less);
    assert_eq!(newer.cmp(&older), Order::Less);
    assert_eq!(older.cmp(&deep), Order::Less);
    assert_eq!(deep.cmp(&older), Order::Greater);
    assert_eq!(newer.cmp(&newer), Order::Equal);
}

/// Running the external reconstruction on the canonical-comparator-sorted
/// flattening of a scanner-built tree reproduces the same child ranges and
/// parent assignments, ids renumbered by position.
#[test]
fn round_trip_through_external_reconstruction() {
    let input = sample_tree();
    assert!(pages_wf_check(&input));
    let built = Pages::from_sources(input);

    // flatten: strip the computed hierarchy, keep the content fields
    let mut flat: Vec<Page> = Vec::new();
    for p in built.0.iter() {
        let mut q = page(&p.slug, &p.path.0, p.is_section);
        q.date = p.date;
        q.weight = p.weight;
        flat.push(q);
    }
    // sort by the canonical comparator
    let n = flat.len();
    for i in 0..n {
        for j in 0..n - 1 - i {
            if flat[j].cmp(&flat[j + 1]) == Order::Greater {
                flat.swap(j, j + 1);
            }
        }
    }
    let order: Vec<&str> =
        flat.iter().map(|p| p.slug.as_str()).collect();
    assert_eq!(order, vec!["content", "a", "p2", "p1", "x"]);

    assert!(external_input_ok(&flat));
    let rebuilt = Pages::from_external(flat);
    let v = &rebuilt.0;
    for (i, p) in v.iter().enumerate() {
        assert_eq!(p.id, i);
    }
    // the same tree: root holds {a} as subsections and {p2, p1} as pages,
    // in the same order as the scanner build; a holds {x}
    assert_eq!(v[0].subsections, Span { start: 1, end: 2 });
    assert_eq!(v[0].pages, Span { start: 2, end: 4 });
    assert_eq!(v[1].pages, Span { start: 4, end: 5 });
    assert_eq!(v[1].subsections, Span { start: 0, end: 0 });
    assert_eq!(v[1].parent, 0);
    assert_eq!(v[2].parent, 0);
    assert_eq!(v[3].parent, 0);
    assert_eq!(v[4].parent, 1);
    assert_eq!(v[2].slug, "p2");
    assert_eq!(v[3].slug, "p1");
    // links chain each rebuilt range
    assert_eq!(v[2].previous, 0);
    assert_eq!(v[2].next, 3);
    assert_eq!(v[3].previous, 2);
    assert_eq!(v[3].next, 0);
}

#[test]
fn external_input_check_rejects_ambiguous_parents() {
    // two sections with the same path and slug would both claim the child
    let a = page("dup", "content", true);
    let b = page("dup", "content", true);
    let child = page("c", "content/dup", false);
    let input = vec![a, b, child];
    assert!(!external_input_ok(&input));
}
