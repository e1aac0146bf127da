//! The taxonomy classifier: grouping pages by tag name and tag value into
//! ordered buckets.

use vstd::prelude::*;
use vstd::string::*;
use crate::page::{spec_permalink, Page};
use crate::types::{spec_date_le, DateTime};

verus! {

/// One class a page is a species of.
#[derive(Debug)]
pub struct Species(pub String);

/// Information about the given taxonomy.
#[derive(Debug)]
pub struct TaxonMeta {
    /// Title of the taxonomy.
    pub title: String,
    /// Description of the taxonomy.
    pub description: String,
    /// The template used to render the taxonomy.
    pub template: String,
    /// The template used to render one key in the taxonomy.
    pub key_template: String,
    /// Paginate the pages for keys with this many per page; `0` means never.
    pub paginate_by: usize,
    /// Sort the pages for keys by weight.
    pub sort_by_weight: bool,
}

/// Reference to a page, coupled with its permalink and the two sort keys
/// every bucket order can need.
#[derive(Debug)]
pub struct PageLinked {
    /// Index of the page in the flat page array.
    pub page: usize,
    /// The page's weight.
    pub weight: i64,
    /// The page's date.
    pub date: Option<DateTime>,
    /// The page's permalink.
    pub permalink: String,
}

/// One taxonomical category of the site (e.g. tags, categories).
#[derive(Debug)]
pub struct Taxonomy {
    /// The taxonomy's metadata.
    pub taxonomy: TaxonMeta,
    /// The name the taxonomy is reached under.
    pub slug: String,
    /// The pages classified under each tag value, keyed by value.
    pub keys: Vec<(Species, Vec<PageLinked>)>,
}

/// The name of the default taxonomy template.
pub fn default_template() -> (r: String)
    ensures
        r@ == "taxonomy.html"@,
{
    String::from_str("taxonomy.html")
}

/// The name of the default taxonomy key template.
pub fn default_key_template() -> (r: String)
    ensures
        r@ == "taxonomy_key.html"@,
{
    String::from_str("taxonomy_key.html")
}

/// The uppercase mapping of one character, as the standard library's
/// Unicode tables define it.
pub uninterp spec fn upper_of(c: char) -> Seq<char>;

/// Relies on `char::to_uppercase`: the full Unicode uppercase mapping of
/// `c`, one or more characters, a function of the character alone.
#[verifier::external_body]
fn char_upper(c: char) -> (r: String)
    ensures
        r@ == upper_of(c),
        r@.len() >= 1,
{
    c.to_uppercase().collect::<String>()
}

/// A string with its first character uppercased.
pub open spec fn spec_title_case(s: Seq<char>) -> Seq<char> {
    if s.len() == 0 {
        Seq::<char>::empty()
    } else {
        upper_of(s[0]) + s.subrange(1, s.len() as int)
    }
}

/// Capitalize the first character of a string: the default title of a
/// taxonomy nobody declared.
pub fn title_case(s: &str) -> (r: String)
    ensures
        r@ == spec_title_case(s@),
{
    let n = s.unicode_len();
    if n == 0 {
        String::new()
    } else {
        let mut out = char_upper(s.get_char(0));
        out.append(s.substring_char(1, n));
        out
    }
}

/// Whether the bucket list holds the tag value `val`.
pub open spec fn keys_has(ks: Seq<(Species, Vec<PageLinked>)>, val: Seq<char>) -> bool {
    exists|k: int| 0 <= k < ks.len() && (#[trigger] ks[k]).0.0@ == val
}

/// The bucket the list holds for `val`, empty if none.
pub open spec fn keys_bucket(ks: Seq<(Species, Vec<PageLinked>)>, val: Seq<char>) -> Seq<
    PageLinked,
> {
    if keys_has(ks, val) {
        let k = choose|k: int| 0 <= k < ks.len() && (#[trigger] ks[k]).0.0@ == val;
        ks[k].1@
    } else {
        Seq::<PageLinked>::empty()
    }
}

/// No tag value keys two buckets.
pub open spec fn keys_wf(ks: Seq<(Species, Vec<PageLinked>)>) -> bool {
    forall|k1: int, k2: int|
        0 <= k1 < k2 < ks.len() ==> (#[trigger] ks[k1]).0.0@ != (#[trigger] ks[k2]).0.0@
}

impl Taxonomy {
    /// A taxonomy from declared metadata.
    pub fn new(slug: String, other: &TaxonMeta) -> (r: Taxonomy)
        ensures
            r.slug@ == slug@,
            r.taxonomy.title@ == other.title@,
            r.taxonomy.description@ == other.description@,
            r.taxonomy.template@ == other.template@,
            r.taxonomy.key_template@ == other.key_template@,
            r.taxonomy.paginate_by == other.paginate_by,
            r.taxonomy.sort_by_weight == other.sort_by_weight,
            r.keys@.len() == 0,
    {
        Taxonomy {
            taxonomy: TaxonMeta {
                title: other.title.clone(),
                description: other.description.clone(),
                template: other.template.clone(),
                key_template: other.key_template.clone(),
                paginate_by: other.paginate_by,
                sort_by_weight: other.sort_by_weight,
            },
            slug,
            keys: Vec::new(),
        }
    }

    /// A default taxonomy for a name nobody declared: its title is the
    /// capitalized name, everything else is the default.
    pub fn empty(slug: String) -> (r: Taxonomy)
        ensures
            r.slug@ == slug@,
            r.taxonomy.title@ == spec_title_case(slug@),
            r.taxonomy.description@.len() == 0,
            r.taxonomy.template@ == "taxonomy.html"@,
            r.taxonomy.key_template@ == "taxonomy_key.html"@,
            r.taxonomy.paginate_by == 0,
            !r.taxonomy.sort_by_weight,
            r.keys@.len() == 0,
    {
        let title = title_case(slug.as_str());
        Taxonomy {
            taxonomy: TaxonMeta {
                title,
                description: String::new(),
                template: default_template(),
                key_template: default_key_template(),
                paginate_by: 0,
                sort_by_weight: false,
            },
            slug,
            keys: Vec::new(),
        }
    }

    /// Append one page to the bucket of the tag value `species`, creating
    /// the bucket if the value is new.
    fn add(&mut self, species: &String, page: PageLinked)
        requires
            keys_wf(old(self).keys@),
        ensures
            keys_wf(final(self).keys@),
            final(self).taxonomy == old(self).taxonomy,
            final(self).slug == old(self).slug,
            keys_bucket(final(self).keys@, species@) == keys_bucket(
                old(self).keys@,
                species@,
            ).push(page),
            forall|q: Seq<char>|
                q != species@ ==> #[trigger] keys_bucket(final(self).keys@, q) == keys_bucket(
                    old(self).keys@,
                    q,
                ),
            forall|q: Seq<char>|
                #[trigger] keys_has(final(self).keys@, q) <==> (keys_has(old(self).keys@, q) || q
                    == species@),
    {
        let ghost pre = self.keys@;
        let n = self.keys.len();
        let mut k: usize = 0;
        while k < n
            invariant
                k <= n,
                n == self.keys@.len(),
                self.keys@ == pre,
                pre == old(self).keys@,
                keys_wf(pre),
                self.taxonomy == old(self).taxonomy,
                self.slug == old(self).slug,
                forall|m: int| 0 <= m < k ==> (#[trigger] pre[m]).0.0@ != species@,
            decreases n - k,
        {
            if self.keys[k].0.0.eq(species) {
                let mut pair = self.keys.remove(k);
                let ghost bucket0 = pair.1@;
                pair.1.push(page);
                self.keys.insert(k, pair);
                proof {
                    assert(bucket0 == pre[k as int].1@);
                    assert(self.keys@.len() == pre.len());
                    assert(forall|m: int|
                        0 <= m < pre.len() && m != k ==> #[trigger] self.keys@[m] == pre[m]);
                    assert(self.keys@[k as int].0 == pre[k as int].0);
                    assert(self.keys@[k as int].1@ == pre[k as int].1@.push(page));
                    assert(forall|m: int|
                        0 <= m < pre.len() ==> (#[trigger] self.keys@[m]).0.0@ == pre[m].0.0@);
                    assert forall|q: Seq<char>| #[trigger] keys_has(self.keys@, q) <==> (keys_has(
                        pre,
                        q,
                    ) || q == species@) by {
                        if keys_has(self.keys@, q) {
                            let x = choose|x: int|
                                0 <= x < self.keys@.len() && (#[trigger] self.keys@[x]).0.0@ == q;
                            assert(pre[x].0.0@ == q);
                        }
                        if keys_has(pre, q) {
                            let y = choose|y: int|
                                0 <= y < pre.len() && (#[trigger] pre[y]).0.0@ == q;
                            assert(self.keys@[y].0.0@ == q);
                        }
                        assert(pre[k as int].0.0@ == species@);
                    }
                    assert(keys_wf(self.keys@));
                    assert(keys_has(self.keys@, species@)) by {
                        assert(self.keys@[k as int].0.0@ == species@);
                    }
                    let a = choose|a: int|
                        0 <= a < self.keys@.len() && (#[trigger] self.keys@[a]).0.0@ == species@;
                    assert(a == k);
                    assert(keys_has(pre, species@)) by {
                        assert(pre[k as int].0.0@ == species@);
                    }
                    let b = choose|b: int|
                        0 <= b < pre.len() && (#[trigger] pre[b]).0.0@ == species@;
                    assert(b == k);
                    assert(keys_bucket(self.keys@, species@) =~= keys_bucket(
                        pre,
                        species@,
                    ).push(page));
                    assert forall|q: Seq<char>| q != species@ implies #[trigger] keys_bucket(
                        self.keys@,
                        q,
                    ) == keys_bucket(pre, q) by {
                        if keys_has(self.keys@, q) {
                            let x = choose|x: int|
                                0 <= x < self.keys@.len() && (#[trigger] self.keys@[x]).0.0@ == q;
                            assert(pre[x].0.0@ == q);
                            let y = choose|y: int|
                                0 <= y < pre.len() && (#[trigger] pre[y]).0.0@ == q;
                            assert(x == y);
                            assert(x != k);
                        } else {
                            if keys_has(pre, q) {
                                let y = choose|y: int|
                                    0 <= y < pre.len() && (#[trigger] pre[y]).0.0@ == q;
                                assert(self.keys@[y].0.0@ == q);
                            }
                        }
                    }
                }
                return ;
            }
            k = k + 1;
        }
        let mut bucket: Vec<PageLinked> = Vec::new();
        bucket.push(page);
        self.keys.push((Species(species.clone()), bucket));
        proof {
            let m = pre.len() as int;
            assert(self.keys@[m].0.0@ == species@);
            assert(forall|j: int| 0 <= j < m ==> #[trigger] self.keys@[j] == pre[j]);
            assert(keys_wf(self.keys@));
            assert(!keys_has(pre, species@));
            assert(keys_has(self.keys@, species@));
            assert forall|q: Seq<char>| #[trigger] keys_has(self.keys@, q) <==> (keys_has(pre, q)
                || q == species@) by {
                if keys_has(self.keys@, q) {
                    let x = choose|x: int|
                        0 <= x < self.keys@.len() && (#[trigger] self.keys@[x]).0.0@ == q;
                    if x < pre.len() {
                        assert(pre[x].0.0@ == q);
                    } else {
                        assert(q == species@);
                    }
                }
                if keys_has(pre, q) {
                    let y = choose|y: int| 0 <= y < pre.len() && (#[trigger] pre[y]).0.0@ == q;
                    assert(self.keys@[y].0.0@ == q);
                }
                assert(self.keys@[pre.len() as int].0.0@ == species@);
            }
            let a = choose|a: int|
                0 <= a < self.keys@.len() && (#[trigger] self.keys@[a]).0.0@ == species@;
            assert(a == m);
            assert(keys_bucket(self.keys@, species@) =~= keys_bucket(pre, species@).push(page));
            assert forall|q: Seq<char>| q != species@ implies #[trigger] keys_bucket(
                self.keys@,
                q,
            ) == keys_bucket(pre, q) by {
                if keys_has(self.keys@, q) {
                    let x = choose|x: int|
                        0 <= x < self.keys@.len() && (#[trigger] self.keys@[x]).0.0@ == q;
                    assert(x != m);
                    assert(pre[x].0.0@ == q);
                    let y = choose|y: int| 0 <= y < pre.len() && (#[trigger] pre[y]).0.0@ == q;
                    assert(x == y);
                } else {
                    if keys_has(pre, q) {
                        let y = choose|y: int| 0 <= y < pre.len() && (#[trigger] pre[y]).0.0@ == q;
                        assert(self.keys@[y].0.0@ == q);
                    }
                }
            }
        }
    }
}

/// The order of one bucket: weight ascending, or date descending with
/// missing dates last.
pub open spec fn linked_le(by_weight: bool, a: PageLinked, b: PageLinked) -> bool {
    if by_weight {
        a.weight <= b.weight
    } else {
        spec_date_le(b.date, a.date)
    }
}

fn linked_le_exec(by_weight: bool, a: &PageLinked, b: &PageLinked) -> (r: bool)
    ensures
        r == linked_le(by_weight, *a, *b),
{
    if by_weight {
        a.weight <= b.weight
    } else {
        crate::types::date_le(&b.date, &a.date)
    }
}

/// Moving one element down keeps the multiset.
proof fn lemma_remove_insert_same<A>(s: Seq<A>, i: int, j: int)
    requires
        0 <= j <= i < s.len(),
    ensures
        s.remove(i).insert(j, s[i]).to_multiset() == s.to_multiset(),
{
    broadcast use vstd::seq_lib::group_to_multiset_ensures;

    let x = s[i];
    let t = s.remove(i);
    assert(t.to_multiset() =~= s.to_multiset().remove(x));
    assert(t.insert(j, x).to_multiset() =~= t.to_multiset().insert(x));
    assert(s.to_multiset().contains(x));
    assert forall|e: A| s.to_multiset().remove(x).insert(x).count(e) == s.to_multiset().count(
        e,
    ) by {}
    assert(s.to_multiset().remove(x).insert(x) =~= s.to_multiset());
}

/// Sort one bucket in place.
fn sort_linked(v: &mut Vec<PageLinked>, by_weight: bool)
    ensures
        final(v)@.len() == old(v)@.len(),
        final(v)@.to_multiset() == old(v)@.to_multiset(),
        forall|a: int, b: int|
            0 <= a < b < final(v)@.len() ==> linked_le(
                by_weight,
                #[trigger] final(v)@[a],
                #[trigger] final(v)@[b],
            ),
{
    let n = v.len();
    if n == 0 {
        return ;
    }
    let mut i: usize = 1;
    while i < n
        invariant
            1 <= i <= n,
            n == v@.len(),
            v@.to_multiset() == old(v)@.to_multiset(),
            forall|a: int, b: int|
                0 <= a < b < i ==> linked_le(by_weight, #[trigger] v@[a], #[trigger] v@[b]),
        decreases n - i,
    {
        let mut j = i;
        while j > 0 && !linked_le_exec(by_weight, &v[j - 1], &v[i])
            invariant
                j <= i < v@.len(),
                forall|k: int| j <= k < i ==> !linked_le(by_weight, #[trigger] v@[k], v@[i as int]),
            decreases j,
        {
            j = j - 1;
        }
        if j < i {
            let ghost before = v@;
            let x = v.remove(i);
            v.insert(j, x);
            proof {
                let ghost after = v@;
                assert(after =~= before.remove(i as int).insert(j as int, before[i as int]));
                lemma_remove_insert_same(before, i as int, j as int);
                assert forall|a: int, b: int|
                    0 <= a < b < i + 1 implies linked_le(
                    by_weight,
                    #[trigger] after[a],
                    #[trigger] after[b],
                ) by {
                    let bx = before[i as int];
                    assert(forall|k: int|
                        (0 <= k < j || i < k < before.len()) ==> #[trigger] after[k] == before[k]);
                    assert(after[j as int] == bx);
                    assert(forall|k: int| j < k <= i ==> #[trigger] after[k] == before[k - 1]);
                    assert(forall|k: int|
                        j <= k < i ==> linked_le(by_weight, bx, #[trigger] before[k]));
                    if a == j {
                        if b > j {
                            assert(after[b] == before[b - 1]);
                        }
                    } else if a < j {
                        assert(after[a] == before[a]);
                        if b == j {
                            if a < j - 1 {
                                assert(linked_le(by_weight, before[a], before[j - 1]));
                            }
                        } else if b > j {
                            assert(after[b] == before[b - 1]);
                        }
                    } else {
                        assert(after[a] == before[a - 1]);
                        assert(after[b] == before[b - 1]);
                    }
                }
            }
        } else {
            proof {
                assert forall|a: int, b: int|
                    0 <= a < b < i + 1 implies linked_le(
                    by_weight,
                    #[trigger] v@[a],
                    #[trigger] v@[b],
                ) by {
                    if b == i && a < i - 1 {
                        assert(linked_le(by_weight, v@[a], v@[i - 1]));
                    }
                }
            }
        }
        i = i + 1;
    }
}

/// The views of a page's tag assignments.
pub open spec fn tag_views(ts: Seq<crate::page::TagAssignment>) -> Seq<(Seq<char>, Seq<Seq<char>>)> {
    ts.map_values(|t: crate::page::TagAssignment| (t.name@, t.values.deep_view()))
}

/// How often `val` occurs among the first `upto` values of a tag list.
pub open spec fn val_count(vals: Seq<Seq<char>>, val: Seq<char>, upto: int) -> int
    decreases upto,
{
    if upto <= 0 {
        0
    } else {
        val_count(vals, val, upto - 1) + if vals[upto - 1] == val {
            1int
        } else {
            0
        }
    }
}

/// How often the first `upto` tag assignments assign `val` under `nm`.
pub open spec fn entry_count(
    entries: Seq<(Seq<char>, Seq<Seq<char>>)>,
    nm: Seq<char>,
    val: Seq<char>,
    upto: int,
) -> int
    decreases upto,
{
    if upto <= 0 {
        0
    } else {
        entry_count(entries, nm, val, upto - 1) + if entries[upto - 1].0 == nm {
            val_count(entries[upto - 1].1, val, entries[upto - 1].1.len() as int)
        } else {
            0
        }
    }
}

/// How often the page assigns `val` under the taxonomy `nm`.
pub open spec fn page_tag_count(p: Page, nm: Seq<char>, val: Seq<char>) -> int {
    entry_count(tag_views(p.taxonomies@), nm, val, p.taxonomies@.len() as int)
}

/// How often the first `upto` pages assign `val` under `nm`.
pub open spec fn pages_tag_count(
    s: Seq<Page>,
    nm: Seq<char>,
    val: Seq<char>,
    upto: int,
) -> int
    decreases upto,
{
    if upto <= 0 {
        0
    } else {
        pages_tag_count(s, nm, val, upto - 1) + page_tag_count(s[upto - 1], nm, val)
    }
}

/// Does the page carry any assignment under the taxonomy `nm`?
pub open spec fn page_names_tag(p: Page, nm: Seq<char>) -> bool {
    exists|e: int| 0 <= e < p.taxonomies@.len() && (#[trigger] p.taxonomies@[e]).name@ == nm
}

/// One bucket entry is consistent with the classified pages: it points at a
/// page that really carries (`nm`, `val`), and mirrors that page's weight,
/// date and permalink.
pub open spec fn linked_ok(
    e: PageLinked,
    pages: Seq<Page>,
    nm: Seq<char>,
    val: Seq<char>,
    url: Seq<char>,
) -> bool {
    &&& e.page < pages.len()
    &&& e.weight == pages[e.page as int].weight
    &&& e.date == pages[e.page as int].date
    &&& e.permalink@ == spec_permalink(
        url,
        pages[e.page as int].path.0@,
        pages[e.page as int].slug@,
        pages[e.page as int].is_section,
    )
    &&& page_tag_count(pages[e.page as int], nm, val) > 0
}

/// Two metadata records hold the same values.
pub open spec fn meta_eq(a: TaxonMeta, b: TaxonMeta) -> bool {
    &&& a.title@ == b.title@
    &&& a.description@ == b.description@
    &&& a.template@ == b.template@
    &&& a.key_template@ == b.key_template@
    &&& a.paginate_by == b.paginate_by
    &&& a.sort_by_weight == b.sort_by_weight
}

/// The default metadata of a lazily created taxonomy.
pub open spec fn is_default_meta(m: TaxonMeta, slug: Seq<char>) -> bool {
    &&& m.title@ == spec_title_case(slug)
    &&& m.description@.len() == 0
    &&& m.template@ == "taxonomy.html"@
    &&& m.key_template@ == "taxonomy_key.html"@
    &&& m.paginate_by == 0
    &&& !m.sort_by_weight
}

/// The finished shape of one classified taxonomy: no duplicate keys, every
/// bucket's size is exactly how often the pages assign that value under the
/// taxonomy's name, every entry mirrors a page really carrying the value,
/// the bucket is ordered by the taxonomy's sort mode, and every value the
/// pages assign has its bucket.
pub open spec fn taxonomy_done(tax: Taxonomy, pages: Seq<Page>, url: Seq<char>) -> bool {
    &&& keys_wf(tax.keys@)
    &&& forall|k: int|
        0 <= k < tax.keys@.len() ==> ({
            let val = (#[trigger] tax.keys@[k]).0.0@;
            let bucket = tax.keys@[k].1@;
            &&& bucket.len() == pages_tag_count(pages, tax.slug@, val, pages.len() as int)
            &&& bucket.len() >= 1
            &&& forall|x: int| 0 <= x < bucket.len() ==> linked_ok(#[trigger] bucket[x], pages, tax.slug@, val, url)
            &&& forall|a: int, b: int|
                0 <= a < b < bucket.len() ==> linked_le(
                    tax.taxonomy.sort_by_weight,
                    #[trigger] bucket[a],
                    #[trigger] bucket[b],
                )
        })
    &&& forall|val: Seq<char>|
        #[trigger] pages_tag_count(pages, tax.slug@, val, pages.len() as int) > 0 ==> keys_has(
            tax.keys@,
            val,
        )
}

/// The index of the taxonomy named `name`, if one exists.
fn find_tax(r: &Vec<Taxonomy>, name: &String) -> (res: Option<usize>)
    ensures
        match res {
            Option::Some(t) => t < r@.len() && r@[t as int].slug@ == name@,
            Option::None => forall|t: int| 0 <= t < r@.len() ==> (#[trigger] r@[t]).slug@ != name@,
        },
{
    let n = r.len();
    let mut t: usize = 0;
    while t < n
        invariant
            t <= n,
            n == r@.len(),
            forall|m: int| 0 <= m < t ==> (#[trigger] r@[m]).slug@ != name@,
        decreases n - t,
    {
        if r[t].slug.eq(name) {
            return Option::Some(t);
        }
        t = t + 1;
    }
    Option::None
}

/// In a duplicate-free bucket list, the bucket of the `k`-th key is the
/// `k`-th bucket.
proof fn lemma_bucket_at(ks: Seq<(Species, Vec<PageLinked>)>, k: int)
    requires
        keys_wf(ks),
        0 <= k < ks.len(),
    ensures
        keys_bucket(ks, ks[k].0.0@) == ks[k].1@,
        keys_has(ks, ks[k].0.0@),
{
    assert(keys_has(ks, ks[k].0.0@)) by {
        assert(ks[k].0.0@ == ks[k].0.0@);
    }
    let a = choose|a: int| 0 <= a < ks.len() && (#[trigger] ks[a]).0.0@ == ks[k].0.0@;
    if a < k {
        assert(ks[a].0.0@ != ks[k].0.0@);
    } else if k < a {
        assert(ks[k].0.0@ != ks[a].0.0@);
    }
}

/// A value occurring among the first `upto` values is counted.
proof fn lemma_val_count_pos(vals: Seq<Seq<char>>, val: Seq<char>, at: int, upto: int)
    requires
        0 <= at < upto,
        vals[at] == val,
    ensures
        val_count(vals, val, upto) >= 1,
    decreases upto,
{
    if at < upto - 1 {
        lemma_val_count_pos(vals, val, at, upto - 1);
    } else {
        lemma_val_count_nonneg(vals, val, upto - 1);
    }
}

/// An assignment of `val` under `nm` in one entry is counted for the page.
proof fn lemma_entry_count_pos(
    entries: Seq<(Seq<char>, Seq<Seq<char>>)>,
    nm: Seq<char>,
    val: Seq<char>,
    at: int,
    vat: int,
    upto: int,
)
    requires
        0 <= at < upto,
        entries[at].0 == nm,
        0 <= vat < entries[at].1.len(),
        entries[at].1[vat] == val,
    ensures
        entry_count(entries, nm, val, upto) >= 1,
    decreases upto,
{
    if at < upto - 1 {
        lemma_entry_count_pos(entries, nm, val, at, vat, upto - 1);
        lemma_val_count_nonneg(entries[upto - 1].1, val, entries[upto - 1].1.len() as int);
    } else {
        lemma_val_count_pos(entries[at].1, val, vat, entries[at].1.len() as int);
        lemma_entry_count_nonneg(entries, nm, val, upto - 1);
    }
}

proof fn lemma_entry_count_nonneg(
    entries: Seq<(Seq<char>, Seq<Seq<char>>)>,
    nm: Seq<char>,
    val: Seq<char>,
    upto: int,
)
    ensures
        entry_count(entries, nm, val, upto) >= 0,
    decreases upto,
{
    if upto > 0 {
        lemma_entry_count_nonneg(entries, nm, val, upto - 1);
        lemma_val_count_nonneg(entries[upto - 1].1, val, entries[upto - 1].1.len() as int);
    }
}

proof fn lemma_val_count_nonneg(vals: Seq<Seq<char>>, val: Seq<char>, upto: int)
    ensures
        val_count(vals, val, upto) >= 0,
    decreases upto,
{
    if upto > 0 {
        lemma_val_count_nonneg(vals, val, upto - 1);
    }
}

proof fn lemma_pages_tag_count_nonneg(s: Seq<Page>, nm: Seq<char>, val: Seq<char>, upto: int)
    ensures
        pages_tag_count(s, nm, val, upto) >= 0,
    decreases upto,
{
    if upto > 0 {
        lemma_pages_tag_count_nonneg(s, nm, val, upto - 1);
        lemma_entry_count_nonneg(
            tag_views(s[upto - 1].taxonomies@),
            nm,
            val,
            s[upto - 1].taxonomies@.len() as int,
        );
    }
}

/// Properties carried by every element survive reordering.
proof fn lemma_bucket_props(
    a: Seq<PageLinked>,
    b: Seq<PageLinked>,
    pages: Seq<Page>,
    nm: Seq<char>,
    val: Seq<char>,
    url: Seq<char>,
)
    requires
        a.to_multiset() == b.to_multiset(),
        forall|x: int| 0 <= x < a.len() ==> linked_ok(#[trigger] a[x], pages, nm, val, url),
    ensures
        forall|x: int| 0 <= x < b.len() ==> linked_ok(#[trigger] b[x], pages, nm, val, url),
{
    broadcast use vstd::seq_lib::group_to_multiset_ensures;

    assert forall|x: int| 0 <= x < b.len() implies linked_ok(
        #[trigger] b[x],
        pages,
        nm,
        val,
        url,
    ) by {
        assert(b.contains(b[x]));
        assert(b.to_multiset().count(b[x]) > 0);
        assert(a.to_multiset().count(b[x]) > 0);
        assert(a.contains(b[x]));
        let w = choose|w: int| 0 <= w < a.len() && a[w] == b[x];
        assert(linked_ok(a[w], pages, nm, val, url));
    }
}

/// Is a taxonomy of that name in the list?
pub open spec fn has_taxonomy(r: Seq<Taxonomy>, nm: Seq<char>) -> bool {
    exists|t: int| 0 <= t < r.len() && (#[trigger] r[t]).slug@ == nm
}

/// Walk every page once, appending each (tag value, page) assignment under
/// this taxonomy's name to the value's bucket, then sort every bucket by
/// the taxonomy's sort mode.
fn fill_taxonomy(tax0: Taxonomy, pages: &Vec<Page>, url: &str) -> (r: Taxonomy)
    requires
        tax0.keys@.len() == 0,
    ensures
        r.slug == tax0.slug,
        r.taxonomy == tax0.taxonomy,
        taxonomy_done(r, pages@, url@),
{
    let mut tax = tax0;
    let ghost slug = tax0.slug@;
    let n = pages.len();
    let mut i: usize = 0;
    while i < n
        invariant
            i <= n,
            n == pages@.len(),
            keys_wf(tax.keys@),
            tax.slug == tax0.slug,
            tax.taxonomy == tax0.taxonomy,
            slug == tax0.slug@,
            forall|k: int|
                0 <= k < tax.keys@.len() ==> (#[trigger] tax.keys@[k]).1@.len()
                    == pages_tag_count(pages@, slug, tax.keys@[k].0.0@, i as int)
                    && tax.keys@[k].1@.len() >= 1,
            forall|val: Seq<char>|
                #[trigger] pages_tag_count(pages@, slug, val, i as int) > 0 ==> keys_has(
                    tax.keys@,
                    val,
                ),
            forall|k: int, x: int|
                0 <= k < tax.keys@.len() && 0 <= x < tax.keys@[k].1@.len() ==> linked_ok(
                    #[trigger] tax.keys@[k].1@[x],
                    pages@,
                    slug,
                    tax.keys@[k].0.0@,
                    url@,
                ),
        decreases n - i,
    {
        let ghost entries = tag_views(pages@[i as int].taxonomies@);
        let ne = pages[i].taxonomies.len();
        proof {
            assert(forall|v: Seq<char>| entry_count(entries, slug, v, 0) == 0);
        }
        let mut e: usize = 0;
        while e < ne
            invariant
                e <= ne,
                i < n,
                n == pages@.len(),
                ne == pages@[i as int].taxonomies@.len(),
                entries == tag_views(pages@[i as int].taxonomies@),
                keys_wf(tax.keys@),
                tax.slug == tax0.slug,
                tax.taxonomy == tax0.taxonomy,
                slug == tax0.slug@,
                forall|k: int|
                    0 <= k < tax.keys@.len() ==> (#[trigger] tax.keys@[k]).1@.len()
                        == pages_tag_count(pages@, slug, tax.keys@[k].0.0@, i as int)
                        + entry_count(entries, slug, tax.keys@[k].0.0@, e as int)
                        && tax.keys@[k].1@.len() >= 1,
                forall|val: Seq<char>|
                    #[trigger] pages_tag_count(pages@, slug, val, i as int) + entry_count(
                        entries,
                        slug,
                        val,
                        e as int,
                    ) > 0 ==> keys_has(tax.keys@, val),
                forall|k: int, x: int|
                    0 <= k < tax.keys@.len() && 0 <= x < tax.keys@[k].1@.len() ==> linked_ok(
                        #[trigger] tax.keys@[k].1@[x],
                        pages@,
                        slug,
                        tax.keys@[k].0.0@,
                        url@,
                    ),
            decreases ne - e,
        {
            proof {
                assert(entries[e as int].0 == pages@[i as int].taxonomies@[e as int].name@);
                assert(entries[e as int].1 == pages@[i as int].taxonomies@[e as int].values.deep_view());
            }
            if pages[i].taxonomies[e].name.eq(&tax.slug) {
                let nv = pages[i].taxonomies[e].values.len();
                let ghost vals = entries[e as int].1;
                proof {
                    assert(vals.len() == nv) by {
                        assert(pages@[i as int].taxonomies@[e as int].values.deep_view().len()
                            == pages@[i as int].taxonomies@[e as int].values@.len());
                    }
                }
                proof {
                    assert(forall|v: Seq<char>| val_count(vals, v, 0) == 0);
                }
                let mut vi: usize = 0;
                while vi < nv
                    invariant
                        vi <= nv,
                        i < n,
                        e < ne,
                        n == pages@.len(),
                        ne == pages@[i as int].taxonomies@.len(),
                        entries == tag_views(pages@[i as int].taxonomies@),
                        vals == entries[e as int].1,
                        entries[e as int].0 == slug,
                        nv == vals.len(),
                        nv == pages@[i as int].taxonomies@[e as int].values@.len(),
                        keys_wf(tax.keys@),
                        tax.slug == tax0.slug,
                        tax.taxonomy == tax0.taxonomy,
                        slug == tax0.slug@,
                        forall|k: int|
                            0 <= k < tax.keys@.len() ==> (#[trigger] tax.keys@[k]).1@.len()
                                == pages_tag_count(pages@, slug, tax.keys@[k].0.0@, i as int)
                                + entry_count(entries, slug, tax.keys@[k].0.0@, e as int)
                                + val_count(vals, tax.keys@[k].0.0@, vi as int)
                                && tax.keys@[k].1@.len() >= 1,
                        forall|val: Seq<char>|
                            #[trigger] pages_tag_count(pages@, slug, val, i as int) + entry_count(
                                entries,
                                slug,
                                val,
                                e as int,
                            ) + val_count(vals, val, vi as int) > 0 ==> keys_has(tax.keys@, val),
                        forall|k: int, x: int|
                            0 <= k < tax.keys@.len() && 0 <= x < tax.keys@[k].1@.len()
                                ==> linked_ok(
                                #[trigger] tax.keys@[k].1@[x],
                                pages@,
                                slug,
                                tax.keys@[k].0.0@,
                                url@,
                            ),
                    decreases nv - vi,
                {
                    let ghost pre_keys = tax.keys@;
                    let val = &pages[i].taxonomies[e].values[vi];
                    let pl = PageLinked {
                        page: i,
                        weight: pages[i].weight,
                        date: pages[i].date,
                        permalink: crate::page::permalink(
                            url,
                            pages[i].path.0.as_str(),
                            pages[i].slug.as_str(),
                            pages[i].is_section,
                        ),
                    };
                    proof {
                        assert(vals[vi as int] == val@) by {
                            assert(pages@[i as int].taxonomies@[e as int].values.deep_view()[vi as int]
                                == pages@[i as int].taxonomies@[e as int].values@[vi as int]@);
                        }
                        assert(linked_ok(pl, pages@, slug, val@, url@)) by {
                            lemma_entry_count_pos(entries, slug, val@, e as int, vi as int, ne as int);
                        }
                    }
                    tax.add(val, pl);
                    proof {
                        assert forall|k: int|
                            0 <= k < tax.keys@.len() implies (#[trigger] tax.keys@[k]).1@.len()
                                == pages_tag_count(pages@, slug, tax.keys@[k].0.0@, i as int)
                                + entry_count(entries, slug, tax.keys@[k].0.0@, e as int)
                                + val_count(vals, tax.keys@[k].0.0@, vi + 1)
                                && tax.keys@[k].1@.len() >= 1 by {
                            lemma_bucket_at(tax.keys@, k);
                            let kv = tax.keys@[k].0.0@;
                            if kv == val@ {
                                assert(keys_bucket(tax.keys@, kv) == keys_bucket(
                                    pre_keys,
                                    kv,
                                ).push(pl));
                                if keys_has(pre_keys, kv) {
                                    let a = choose|a: int|
                                        0 <= a < pre_keys.len() && (#[trigger] pre_keys[a]).0.0@
                                            == kv;
                                    lemma_bucket_at(pre_keys, a);
                                } else {
                                    assert(keys_bucket(pre_keys, kv) =~= Seq::<
                                        PageLinked,
                                    >::empty());
                                    lemma_pages_tag_count_nonneg(pages@, slug, kv, i as int);
                                    lemma_entry_count_nonneg(entries, slug, kv, e as int);
                                    lemma_val_count_nonneg(vals, kv, vi as int);
                                    assert(pages_tag_count(pages@, slug, kv, i as int)
                                        + entry_count(entries, slug, kv, e as int) + val_count(
                                        vals,
                                        kv,
                                        vi as int,
                                    ) == 0);
                                }
                            } else {
                                assert(keys_bucket(tax.keys@, kv) == keys_bucket(pre_keys, kv));
                                assert(keys_has(tax.keys@, kv)) by {
                                    assert(tax.keys@[k].0.0@ == kv);
                                }
                                assert(keys_has(pre_keys, kv));
                                let a = choose|a: int|
                                    0 <= a < pre_keys.len() && (#[trigger] pre_keys[a]).0.0@ == kv;
                                lemma_bucket_at(pre_keys, a);
                            }
                        }
                        assert forall|q: Seq<char>|
                            #[trigger] pages_tag_count(pages@, slug, q, i as int) + entry_count(
                                entries,
                                slug,
                                q,
                                e as int,
                            ) + val_count(vals, q, vi + 1) > 0 implies keys_has(tax.keys@, q) by {
                            if q == val@ {
                                assert(keys_bucket(tax.keys@, q) == keys_bucket(
                                    pre_keys,
                                    q,
                                ).push(pl));
                                assert(keys_bucket(tax.keys@, q).len() >= 1);
                                if !keys_has(tax.keys@, q) {
                                    assert(keys_bucket(tax.keys@, q) =~= Seq::<
                                        PageLinked,
                                    >::empty());
                                }
                            } else {
                                if pages_tag_count(pages@, slug, q, i as int) + entry_count(
                                    entries,
                                    slug,
                                    q,
                                    e as int,
                                ) + val_count(vals, q, vi as int) > 0 {
                                    assert(keys_has(pre_keys, q));
                                    let a = choose|a: int|
                                        0 <= a < pre_keys.len() && (#[trigger] pre_keys[a]).0.0@
                                            == q;
                                    lemma_bucket_at(pre_keys, a);
                                    assert(keys_bucket(tax.keys@, q) == keys_bucket(pre_keys, q));
                                    assert(keys_bucket(tax.keys@, q).len() >= 1);
                                    if !keys_has(tax.keys@, q) {
                                        assert(keys_bucket(tax.keys@, q) =~= Seq::<
                                            PageLinked,
                                        >::empty());
                                    }
                                }
                            }
                        }
                        assert forall|k: int, x: int|
                            0 <= k < tax.keys@.len() && 0 <= x < tax.keys@[k].1@.len()
                                implies linked_ok(
                            #[trigger] tax.keys@[k].1@[x],
                            pages@,
                            slug,
                            tax.keys@[k].0.0@,
                            url@,
                        ) by {
                            lemma_bucket_at(tax.keys@, k);
                            let kv = tax.keys@[k].0.0@;
                            if kv == val@ {
                                assert(keys_bucket(tax.keys@, kv) == keys_bucket(
                                    pre_keys,
                                    kv,
                                ).push(pl));
                                if x < tax.keys@[k].1@.len() - 1 {
                                    if keys_has(pre_keys, kv) {
                                        let a = choose|a: int|
                                            0 <= a < pre_keys.len() && (
                                            #[trigger] pre_keys[a]).0.0@ == kv;
                                        lemma_bucket_at(pre_keys, a);
                                        assert(tax.keys@[k].1@[x] == pre_keys[a].1@[x]);
                                    } else {
                                        assert(keys_bucket(pre_keys, kv) =~= Seq::<
                                            PageLinked,
                                        >::empty());
                                    }
                                } else {
                                    assert(tax.keys@[k].1@[x] == pl);
                                }
                            } else {
                                assert(keys_bucket(tax.keys@, kv) == keys_bucket(pre_keys, kv));
                                assert(keys_has(tax.keys@, kv)) by {
                                    assert(tax.keys@[k].0.0@ == kv);
                                }
                                assert(keys_has(pre_keys, kv));
                                let a = choose|a: int|
                                    0 <= a < pre_keys.len() && (#[trigger] pre_keys[a]).0.0@ == kv;
                                lemma_bucket_at(pre_keys, a);
                                assert(tax.keys@[k].1@[x] == pre_keys[a].1@[x]);
                            }
                        }
                    }
                    vi = vi + 1;
                }
            }
            e = e + 1;
        }
        proof {
            assert(forall|v: Seq<char>| #[trigger] pages_tag_count(pages@, slug, v, i + 1)
                == pages_tag_count(pages@, slug, v, i as int) + entry_count(
                entries,
                slug,
                v,
                ne as int,
            ));
        }
        i = i + 1;
    }
    // sort every bucket once, by the taxonomy's sort mode
    let ghost filled = tax.keys@;
    let nb = tax.keys.len();
    let mut b: usize = 0;
    while b < nb
        invariant
            b <= nb,
            nb == tax.keys@.len(),
            nb == filled.len(),
            tax.slug == tax0.slug,
            tax.taxonomy == tax0.taxonomy,
            slug == tax0.slug@,
            forall|k: int|
                0 <= k < nb ==> (#[trigger] tax.keys@[k]).0 == filled[k].0 && tax.keys@[k].1@.len()
                    == filled[k].1@.len() && tax.keys@[k].1@.to_multiset()
                    == filled[k].1@.to_multiset(),
            keys_wf(filled),
            forall|k: int|
                0 <= k < nb ==> (#[trigger] filled[k]).1@.len() == pages_tag_count(
                    pages@,
                    slug,
                    filled[k].0.0@,
                    n as int,
                ) && filled[k].1@.len() >= 1,
            n == pages@.len(),
            forall|val: Seq<char>|
                #[trigger] pages_tag_count(pages@, slug, val, n as int) > 0 ==> keys_has(
                    filled,
                    val,
                ),
            forall|k: int, x: int|
                0 <= k < nb && 0 <= x < tax.keys@[k].1@.len() ==> linked_ok(
                    #[trigger] tax.keys@[k].1@[x],
                    pages@,
                    slug,
                    tax.keys@[k].0.0@,
                    url@,
                ),
            forall|k: int, a: int, bb: int|
                0 <= k < b && 0 <= a < bb < tax.keys@[k].1@.len() ==> linked_le(
                    tax.taxonomy.sort_by_weight,
                    #[trigger] tax.keys@[k].1@[a],
                    #[trigger] tax.keys@[k].1@[bb],
                ),
        decreases nb - b,
    {
        let ghost pre_keys = tax.keys@;
        let mut pair = tax.keys.remove(b);
        let ghost bucket0 = pair.1@;
        sort_linked(&mut pair.1, tax.taxonomy.sort_by_weight);
        tax.keys.insert(b, pair);
        proof {
            broadcast use vstd::seq_lib::to_multiset_len;

            assert(tax.keys@.len() == pre_keys.len());
            assert(forall|m: int|
                0 <= m < pre_keys.len() && m != b ==> #[trigger] tax.keys@[m] == pre_keys[m]);
            assert(tax.keys@[b as int].0 == pre_keys[b as int].0);
            assert(tax.keys@[b as int].1@.to_multiset() == bucket0.to_multiset());
            assert(bucket0 == pre_keys[b as int].1@);
            assert(tax.keys@[b as int].1@.len() == bucket0.len());
            lemma_bucket_props(
                bucket0,
                tax.keys@[b as int].1@,
                pages@,
                slug,
                pre_keys[b as int].0.0@,
                url@,
            );
        }
        b = b + 1;
    }
    proof {
        assert forall|val: Seq<char>|
            #[trigger] pages_tag_count(pages@, slug, val, n as int) > 0 implies keys_has(
            tax.keys@,
            val,
        ) by {
            assert(keys_has(filled, val));
            let a = choose|a: int| 0 <= a < filled.len() && (#[trigger] filled[a]).0.0@ == val;
            assert(tax.keys@[a].0.0@ == val);
        }
        assert(keys_wf(tax.keys@)) by {
            assert(forall|k: int|
                0 <= k < tax.keys@.len() ==> (#[trigger] tax.keys@[k]).0.0@ == filled[k].0.0@);
        }
    }
    tax
}

impl Taxonomy {
    /// Classify the given pages into taxonomies: one taxonomy per declared
    /// name with its declared metadata, plus — where `implicit` allows it —
    /// a default taxonomy for every tag name the pages use that nobody
    /// declared. Every page is walked once; each of its tag values is
    /// appended to that value's bucket together with the page's permalink,
    /// and in the end every bucket is sorted by its taxonomy's sort mode.
    /// An assignment to an undeclared taxonomy is silently ignored when
    /// `implicit` is off.
    pub fn classify(
        pages: &Vec<Page>,
        taxonomies: &Vec<(String, TaxonMeta)>,
        url: &str,
        implicit: bool,
    ) -> (r: Vec<Taxonomy>)
        requires
            forall|k1: int, k2: int|
                0 <= k1 < k2 < taxonomies@.len() ==> (#[trigger] taxonomies@[k1]).0@ != (
                #[trigger] taxonomies@[k2]).0@,
        ensures
            r@.len() >= taxonomies@.len(),
            forall|t1: int, t2: int|
                0 <= t1 < t2 < r@.len() ==> (#[trigger] r@[t1]).slug@ != (#[trigger] r@[t2]).slug@,
            forall|k: int|
                0 <= k < taxonomies@.len() ==> (#[trigger] r@[k]).slug@ == taxonomies@[k].0@
                    && meta_eq(r@[k].taxonomy, taxonomies@[k].1),
            !implicit ==> r@.len() == taxonomies@.len(),
            forall|k: int|
                taxonomies@.len() <= k < r@.len() ==> is_default_meta(
                    (#[trigger] r@[k]).taxonomy,
                    r@[k].slug@,
                ) && exists|i: int|
                    0 <= i < pages@.len() && page_names_tag(pages@[i], r@[k].slug@),
            implicit ==> forall|i: int, e: int|
                0 <= i < pages@.len() && 0 <= e < pages@[i].taxonomies@.len() ==> has_taxonomy(
                    r@,
                    (#[trigger] pages@[i].taxonomies@[e]).name@,
                ),
            forall|t: int| 0 <= t < r@.len() ==> taxonomy_done(#[trigger] r@[t], pages@, url@),
    {
        let nd = taxonomies.len();
        let mut result: Vec<Taxonomy> = Vec::new();
        let mut k: usize = 0;
        while k < nd
            invariant
                k <= nd,
                nd == taxonomies@.len(),
                result@.len() == k,
                forall|k1: int, k2: int|
                    0 <= k1 < k2 < nd ==> (#[trigger] taxonomies@[k1]).0@ != (
                    #[trigger] taxonomies@[k2]).0@,
                forall|m: int|
                    0 <= m < k ==> (#[trigger] result@[m]).slug@ == taxonomies@[m].0@ && meta_eq(
                        result@[m].taxonomy,
                        taxonomies@[m].1,
                    ) && result@[m].keys@.len() == 0,
            decreases nd - k,
        {
            result.push(Taxonomy::new(taxonomies[k].0.clone(), &taxonomies[k].1));
            k = k + 1;
        }
        let np = pages.len();
        if implicit {
            let mut i: usize = 0;
            while i < np
                invariant
                    i <= np,
                    np == pages@.len(),
                    nd == taxonomies@.len(),
                    result@.len() >= nd,
                    forall|m: int|
                        0 <= m < nd ==> (#[trigger] result@[m]).slug@ == taxonomies@[m].0@
                            && meta_eq(result@[m].taxonomy, taxonomies@[m].1),
                    forall|t1: int, t2: int|
                        0 <= t1 < t2 < result@.len() ==> (#[trigger] result@[t1]).slug@ != (
                        #[trigger] result@[t2]).slug@,
                    forall|m: int| 0 <= m < result@.len() ==> (#[trigger] result@[m]).keys@.len() == 0,
                    forall|m: int|
                        nd <= m < result@.len() ==> is_default_meta(
                            (#[trigger] result@[m]).taxonomy,
                            result@[m].slug@,
                        ) && exists|ii: int|
                            0 <= ii < np && page_names_tag(pages@[ii], result@[m].slug@),
                    forall|ii: int, e: int|
                        0 <= ii < i && 0 <= e < pages@[ii].taxonomies@.len() ==> has_taxonomy(
                            result@,
                            (#[trigger] pages@[ii].taxonomies@[e]).name@,
                        ),
                decreases np - i,
            {
                let ne = pages[i].taxonomies.len();
                let mut e: usize = 0;
                while e < ne
                    invariant
                        e <= ne,
                        i < np,
                        np == pages@.len(),
                        nd == taxonomies@.len(),
                        ne == pages@[i as int].taxonomies@.len(),
                        result@.len() >= nd,
                        forall|m: int|
                            0 <= m < nd ==> (#[trigger] result@[m]).slug@ == taxonomies@[m].0@
                                && meta_eq(result@[m].taxonomy, taxonomies@[m].1),
                        forall|t1: int, t2: int|
                            0 <= t1 < t2 < result@.len() ==> (#[trigger] result@[t1]).slug@ != (
                            #[trigger] result@[t2]).slug@,
                        forall|m: int|
                            0 <= m < result@.len() ==> (#[trigger] result@[m]).keys@.len() == 0,
                        forall|m: int|
                            nd <= m < result@.len() ==> is_default_meta(
                                (#[trigger] result@[m]).taxonomy,
                                result@[m].slug@,
                            ) && exists|ii: int|
                                0 <= ii < np && page_names_tag(pages@[ii], result@[m].slug@),
                        forall|ii: int, ee: int|
                            0 <= ii < i && 0 <= ee < pages@[ii].taxonomies@.len() ==> has_taxonomy(
                                result@,
                                (#[trigger] pages@[ii].taxonomies@[ee]).name@,
                            ),
                        forall|ee: int|
                            0 <= ee < e ==> has_taxonomy(
                                result@,
                                (#[trigger] pages@[i as int].taxonomies@[ee]).name@,
                            ),
                    decreases ne - e,
                {
                    let ghost pre = result@;
                    let name = &pages[i].taxonomies[e].name;
                    if find_tax(&result, name).is_none() {
                        result.push(Taxonomy::empty(name.clone()));
                        proof {
                            let m = pre.len() as int;
                            assert(result@[m].slug@ == name@);
                            assert(forall|j: int| 0 <= j < m ==> #[trigger] result@[j] == pre[j]);
                            assert(exists|ii: int|
                                0 <= ii < np && page_names_tag(pages@[ii], name@)) by {
                                assert(pages@[i as int].taxonomies@[e as int].name@ == name@);
                                assert(page_names_tag(pages@[i as int], name@));
                            }
                            assert forall|ii: int, ee: int|
                                0 <= ii < i + 0 && 0 <= ee < pages@[ii].taxonomies@.len()
                                    implies has_taxonomy(
                                result@,
                                (#[trigger] pages@[ii].taxonomies@[ee]).name@,
                            ) by {
                                let nm = pages@[ii].taxonomies@[ee].name@;
                                assert(has_taxonomy(pre, nm));
                                let t = choose|t: int|
                                    0 <= t < pre.len() && (#[trigger] pre[t]).slug@ == nm;
                                assert(result@[t].slug@ == nm);
                            }
                            assert forall|ee: int| 0 <= ee < e + 1 implies has_taxonomy(
                                result@,
                                (#[trigger] pages@[i as int].taxonomies@[ee]).name@,
                            ) by {
                                let nm = pages@[i as int].taxonomies@[ee].name@;
                                if ee < e {
                                    assert(has_taxonomy(pre, nm));
                                    let t = choose|t: int|
                                        0 <= t < pre.len() && (#[trigger] pre[t]).slug@ == nm;
                                    assert(result@[t].slug@ == nm);
                                } else {
                                    assert(result@[m].slug@ == nm);
                                }
                            }
                        }
                    } else {
                        proof {
                            assert forall|ee: int| 0 <= ee < e + 1 implies has_taxonomy(
                                result@,
                                (#[trigger] pages@[i as int].taxonomies@[ee]).name@,
                            ) by {}
                        }
                    }
                    e = e + 1;
                }
                i = i + 1;
            }
        }
        // fill and sort each taxonomy's buckets
        let ghost list0 = result@;
        let nt = result.len();
        let mut t: usize = 0;
        while t < nt
            invariant
                t <= nt,
                nt == result@.len(),
                nt == list0.len(),
                np == pages@.len(),
                forall|m: int|
                    0 <= m < nt ==> (#[trigger] result@[m]).slug == list0[m].slug
                        && result@[m].taxonomy == list0[m].taxonomy,
                forall|m: int| t <= m < nt ==> (#[trigger] result@[m]).keys@.len() == 0,
                forall|m: int| 0 <= m < t ==> taxonomy_done(#[trigger] result@[m], pages@, url@),
            decreases nt - t,
        {
            let ghost pre = result@;
            let tx = result.remove(t);
            let tx2 = fill_taxonomy(tx, pages, url);
            result.insert(t, tx2);
            proof {
                assert(result@.len() == pre.len());
                assert(forall|m: int|
                    0 <= m < pre.len() && m != t ==> #[trigger] result@[m] == pre[m]);
            }
            t = t + 1;
        }
        proof {
            assert forall|k1: int, k2: int|
                0 <= k1 < k2 < result@.len() implies (#[trigger] result@[k1]).slug@ != (
            #[trigger] result@[k2]).slug@ by {
                assert(result@[k1].slug == list0[k1].slug);
                assert(result@[k2].slug == list0[k2].slug);
            }
            if implicit {
                assert forall|i: int, e: int|
                    0 <= i < pages@.len() && 0 <= e < pages@[i].taxonomies@.len()
                        implies has_taxonomy(
                    result@,
                    (#[trigger] pages@[i].taxonomies@[e]).name@,
                ) by {
                    let nm = pages@[i].taxonomies@[e].name@;
                    assert(has_taxonomy(list0, nm));
                    let w = choose|w: int|
                        0 <= w < list0.len() && (#[trigger] list0[w]).slug@ == nm;
                    assert(result@[w].slug@ == nm);
                }
            }
        }
        result
    }
}

} // verus!
