use blades::md::separate_md_header;
use blades::page::{eq_def_page, Page, Picture};
use blades::render::{output_path, render_units, resolve_template, RenderUnit};
use blades::sources::{Format, Source};
use blades::site::default_true;
use blades::types::{
    default_range, equal_zero, is_slice_empty, parse_date_prefix, Ancestors, Span,
};

#[test]
fn header_is_split_from_content() {
    let (header, rest) = separate_md_header(b"+++title = 1+++body text");
    assert_eq!(header, b"title = 1");
    assert_eq!(rest, b"body text");
}

#[test]
fn no_fence_means_all_content() {
    let (header, rest) = separate_md_header(b"just a document");
    assert_eq!(header, b"");
    assert_eq!(rest, b"just a document");
}

#[test]
fn quoted_fence_does_not_close() {
    let source = b"+++a = \"+++\"\n+++rest";
    let (header, rest) = separate_md_header(source);
    assert_eq!(header, b"a = \"+++\"\n");
    assert_eq!(rest, b"rest");
}

#[test]
fn unclosed_header_swallows_everything() {
    let (header, rest) = separate_md_header(b"+++a = 1");
    assert_eq!(header, b"a = 1");
    assert_eq!(rest, b"");
}

#[test]
fn new_page_takes_slug_date_and_path_from_source() {
    let source = Source::new(
        "content/2021-07-09-hello".to_string(),
        Span { start: 0, end: 0 },
        0,
        None,
        Format::Toml,
    );
    let draft = Page::empty();
    let p = Page::new(draft, &source, "content/2021-07-09-hello");
    assert_eq!(p.slug, "2021-07-09-hello");
    assert_eq!(p.path.0, "content");
    let d = p.date.expect("date parsed from the file stem");
    assert_eq!((d.year, d.month, d.day), (2021, 7, 9));
    assert!(!p.is_section);
}

#[test]
fn explicit_slug_and_path_survive() {
    let source = Source::new(
        "content/post".to_string(),
        Span { start: 0, end: 0 },
        0,
        None,
        Format::Toml,
    );
    let mut draft = Page::empty();
    draft.slug = "custom".to_string();
    draft.path = Ancestors("else/where".to_string());
    let p = Page::new(draft, &source, "content/post");
    assert_eq!(p.slug, "custom");
    assert_eq!(p.path.0, "else/where");
    assert!(p.nonstandard_path);
}

#[test]
fn date_prefix_validity() {
    assert!(parse_date_prefix("2021-02-28").is_some());
    assert!(parse_date_prefix("2021-02-29").is_none());
    assert!(parse_date_prefix("2020-02-29").is_some()); // leap year
    assert!(parse_date_prefix("2021-13-01").is_none());
    assert!(parse_date_prefix("not-a-date").is_none());
    assert!(parse_date_prefix("2021-07-09-and-more").is_some());
}

#[test]
fn permalinks_follow_kind() {
    let mut p = Page::empty();
    p.slug = "post".to_string();
    p.path = Ancestors("blog".to_string());
    assert_eq!(p.permalink("https://s"), "https://s/blog/post.html");
    p.is_section = true;
    assert_eq!(p.permalink("https://s"), "https://s/blog/post/");
}

#[test]
fn output_paths_follow_kind() {
    let mut p = Page::empty();
    p.slug = "post".to_string();
    p.path = Ancestors("blog".to_string());
    assert_eq!(output_path(&p), "blog/post.html");
    p.is_section = true;
    assert_eq!(output_path(&p), "blog/post/index.html");
}

#[test]
fn templates_inherit_from_parent() {
    let mut root = Page::empty();
    root.is_section = true;
    root.page_template = "custom_page.html".to_string();
    let child = Page::empty();
    let pages = vec![root, child];
    assert_eq!(resolve_template(&pages, 1), "custom_page.html");
    assert_eq!(resolve_template(&pages, 0), "section.html");
}

#[test]
fn paginated_units_get_numbered_paths() {
    let mut root = Page::empty();
    root.is_section = true;
    root.slug = "blog".to_string();
    root.pages = Span { start: 1, end: 24 };
    root.paginate_by = 10;
    let pages = vec![root];
    let units = render_units(&pages, 0);
    assert_eq!(units.len(), 3);
    match &units[0] {
        RenderUnit::Paged { out, pagination, .. } => {
            assert_eq!(out, "blog/index.html");
            assert_eq!(pagination.current, 1);
        }
        _ => panic!("expected a pagination unit"),
    }
    match &units[2] {
        RenderUnit::Paged { out, span, pagination, .. } => {
            assert_eq!(out, "blog/3.html");
            assert_eq!((span.start, span.end), (21, 24));
            assert_eq!(pagination.previous, Some(2));
            assert_eq!(pagination.next, None);
        }
        _ => panic!("expected a pagination unit"),
    }
}

#[test]
fn gallery_units_wrap_around() {
    let mut p = Page::empty();
    p.slug = "trip".to_string();
    for pid in ["one", "two", "three"] {
        p.pictures.push(Picture {
            alt: String::new(),
            caption: String::new(),
            file: format!("{pid}.jpg"),
            pid: pid.to_string(),
            taken: None,
        });
    }
    let pages = vec![p];
    let units = render_units(&pages, 0);
    // the page itself, then one unit per picture
    assert_eq!(units.len(), 4);
    match &units[1] {
        RenderUnit::GalleryPic { out, picture, previous, next, template } => {
            assert_eq!(out, "trip/one.html");
            assert_eq!(*picture, 0);
            assert_eq!(*previous, 2);
            assert_eq!(*next, 1);
            assert_eq!(template, "gallery.html");
        }
        _ => panic!("expected a gallery unit"),
    }
    match &units[3] {
        RenderUnit::GalleryPic { previous, next, .. } => {
            assert_eq!(*previous, 1);
            assert_eq!(*next, 0);
        }
        _ => panic!("expected a gallery unit"),
    }
}

#[test]
fn alternative_paths_add_whole_renders() {
    let mut p = Page::empty();
    p.slug = "post".to_string();
    p.alternative_paths.push("mirror".to_string());
    let pages = vec![p];
    let units = render_units(&pages, 0);
    assert_eq!(units.len(), 2);
    match &units[1] {
        RenderUnit::Single { out, .. } => assert_eq!(out, "mirror/index.html"),
        _ => panic!("expected a whole render"),
    }
}

#[test]
fn small_defaults() {
    assert!(default_true());
    let r = default_range();
    assert_eq!((r.start, r.end), (0, 0));
    assert!(equal_zero(&0));
    assert!(!equal_zero(&4));
    assert!(is_slice_empty::<u8>(&[]));
    assert!(!is_slice_empty(&[1]));
    assert!(eq_def_page("page.html"));
    assert!(!eq_def_page("other.html"));
}
