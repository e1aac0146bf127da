use blades::page::{Page, TagAssignment};
use blades::taxonomies::{title_case, TaxonMeta, Taxonomy};
use blades::types::DateTime;

fn tagged_page(slug: &str, tags: &[(&str, &[&str])]) -> Page {
    let mut p = Page::empty();
    p.slug = slug.to_string();
    for (name, values) in tags {
        p.taxonomies.push(TagAssignment {
            name: name.to_string(),
            values: values.iter().map(|v| v.to_string()).collect(),
        });
    }
    p
}

fn meta(sort_by_weight: bool) -> TaxonMeta {
    TaxonMeta {
        title: "Tags".to_string(),
        description: String::new(),
        template: "taxonomy.html".to_string(),
        key_template: "taxonomy_key.html".to_string(),
        paginate_by: 0,
        sort_by_weight,
    }
}

#[test]
fn implicit_taxonomy_collects_both_values_once() {
    // a page tagged tags = ["a", "b"] with nothing declared and implicit
    // classification allowed yields a "tags" taxonomy with keys a and b,
    // each holding that page exactly once
    let pages = vec![tagged_page("only", &[("tags", &["a", "b"])])];
    let declared: Vec<(String, TaxonMeta)> = Vec::new();
    let r = Taxonomy::classify(&pages, &declared, "https://site", true);
    assert_eq!(r.len(), 1);
    assert_eq!(r[0].slug, "tags");
    assert_eq!(r[0].taxonomy.title, "Tags");
    assert_eq!(r[0].keys.len(), 2);
    for (species, bucket) in r[0].keys.iter() {
        assert!(species.0 == "a" || species.0 == "b");
        assert_eq!(bucket.len(), 1);
        assert_eq!(bucket[0].page, 0);
    }
}

#[test]
fn undeclared_tags_ignored_without_implicit() {
    let pages = vec![tagged_page("only", &[("tags", &["a"])])];
    let declared: Vec<(String, TaxonMeta)> = Vec::new();
    let r = Taxonomy::classify(&pages, &declared, "", false);
    assert_eq!(r.len(), 0);
}

#[test]
fn declared_metadata_kept_and_buckets_sorted_by_date() {
    let mut old = tagged_page("old", &[("tags", &["x"])]);
    old.date = Some(DateTime { year: 2020, month: 1, day: 1, hour: 0, minute: 0, second: 0 });
    let mut new = tagged_page("new", &[("tags", &["x"])]);
    new.date = Some(DateTime { year: 2024, month: 1, day: 1, hour: 0, minute: 0, second: 0 });
    let pages = vec![old, new];
    let declared = vec![("tags".to_string(), meta(false))];
    let r = Taxonomy::classify(&pages, &declared, "", true);
    assert_eq!(r.len(), 1);
    assert_eq!(r[0].keys.len(), 1);
    let bucket = &r[0].keys[0].1;
    // newest first
    assert_eq!(bucket[0].page, 1);
    assert_eq!(bucket[1].page, 0);
}

#[test]
fn buckets_sorted_by_weight_when_asked() {
    let mut heavy = tagged_page("heavy", &[("tags", &["x"])]);
    heavy.weight = 10;
    let mut light = tagged_page("light", &[("tags", &["x"])]);
    light.weight = 1;
    let pages = vec![heavy, light];
    let declared = vec![("tags".to_string(), meta(true))];
    let r = Taxonomy::classify(&pages, &declared, "", false);
    let bucket = &r[0].keys[0].1;
    assert_eq!(bucket[0].page, 1);
    assert_eq!(bucket[1].page, 0);
}

#[test]
fn bucket_entries_carry_permalinks() {
    let mut p = tagged_page("post", &[("tags", &["x"])]);
    p.path = blades::types::Ancestors("blog".to_string());
    let pages = vec![p];
    let declared: Vec<(String, TaxonMeta)> = Vec::new();
    let r = Taxonomy::classify(&pages, &declared, "https://site", true);
    assert_eq!(r[0].keys[0].1[0].permalink, "https://site/blog/post.html");
}

#[test]
fn title_case_capitalizes_first_letter() {
    assert_eq!(title_case("tags"), "Tags");
    assert_eq!(title_case(""), "");
    assert_eq!(title_case("über"), "Über");
}
