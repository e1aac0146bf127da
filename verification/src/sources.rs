//! The source arena: one growing byte buffer holding every scanned file,
//! and one flat record per file or section with byte-range references into
//! that buffer plus parent/child range links.

use vstd::prelude::*;
use vstd::string::*;
use crate::strutil::strs_eq;
use crate::types::{DateTime, Span};

verus! {

/// The recognized formats of a source file.
#[derive(Clone, Copy, Debug, PartialEq, Eq, Structural)]
pub enum Format {
    /// A structured data file.
    Toml,
    /// A Markdown file with a structured front-matter header.
    Markdown,
}

impl Format {
    /// The format a file extension selects, if any is recognized.
    pub fn from_extension(ext: &str) -> (r: Option<Format>)
        ensures
            r == if ext@ == "toml"@ {
                Option::Some(Format::Toml)
            } else if ext@ == "md"@ {
                Option::Some(Format::Markdown)
            } else {
                Option::<Format>::None
            },
    {
        if strs_eq(ext, "toml") {
            Option::Some(Format::Toml)
        } else if strs_eq(ext, "md") {
            Option::Some(Format::Markdown)
        } else {
            Option::None
        }
    }
}

/// Data about where the source of one particular file is located.
#[derive(Debug)]
pub struct Source {
    /// Range of this file's bytes in the shared data buffer.
    pub source: Span,
    /// The source path of this file, without its extension.
    pub path: String,
    /// Range of this record's subpages in the record list.
    pub pages: Span,
    /// Range of this record's subsections in the record list.
    pub subsections: Span,
    /// Whether this record stands for a directory.
    pub is_section: bool,
    /// Index of the parent record.
    pub parent: usize,
    /// Best-effort creation time from filesystem metadata.
    pub date: Option<DateTime>,
    /// The directory this placeholder still has to scan, if any.
    pub to_load: Option<String>,
    /// The format of the file's contents.
    pub format: Format,
}

impl Source {
    /// A record for one scanned file.
    pub fn new(path: String, src: Span, parent: usize, date: Option<DateTime>, format: Format) -> (
        r: Source)
        ensures
            r.source == src,
            r.path == path,
            r.pages == (Span { start: 0, end: 0 }),
            r.subsections == (Span { start: 0, end: 0 }),
            !r.is_section,
            r.parent == parent,
            r.date == date,
            r.to_load is None,
            r.format == format,
    {
        Source {
            source: src,
            path,
            pages: Span { start: 0, end: 0 },
            subsections: Span { start: 0, end: 0 },
            is_section: false,
            parent,
            date,
            to_load: Option::None,
            format,
        }
    }

    /// A placeholder record for a directory not yet scanned.
    pub fn empty(section: String, parent: usize) -> (r: Source)
        ensures
            r.source == (Span { start: 0, end: 0 }),
            r.path@.len() == 0,
            r.pages == (Span { start: 0, end: 0 }),
            r.subsections == (Span { start: 0, end: 0 }),
            r.is_section,
            r.parent == parent,
            r.date is None,
            r.to_load == Option::Some(section),
            r.format == Format::Toml,
    {
        Source {
            source: Span { start: 0, end: 0 },
            path: String::new(),
            pages: Span { start: 0, end: 0 },
            subsections: Span { start: 0, end: 0 },
            is_section: true,
            parent,
            date: Option::None,
            to_load: Option::Some(section),
            format: Format::Toml,
        }
    }
}

/// One recognized file of a directory, as the scanner's driver hands it in:
/// its source path stripped of the extension, its raw bytes, its best-effort
/// creation time, and the format its extension selected.
#[derive(Debug)]
pub struct FileEntry {
    /// The file's path without its extension.
    pub path: String,
    /// The file's raw bytes.
    pub bytes: Vec<u8>,
    /// Best-effort creation time from filesystem metadata.
    pub date: Option<DateTime>,
    /// The format the file's extension selected.
    pub format: Format,
}

/// All of the site source files: one shared byte buffer, and one record per
/// file or section holding byte ranges into it.
#[derive(Debug)]
pub struct Sources {
    /// Binary data read of all the files.
    pub data: Vec<u8>,
    /// Info about where the particular files are located.
    pub sources: Vec<Source>,
}

/// The ranges of `member` begin only after both ranges of `owner` end.
pub open spec fn src_spans_after(owner: Source, member: Source) -> bool {
    &&& (member.pages.start < member.pages.end ==> member.pages.start >= owner.pages.end
        && member.pages.start >= owner.subsections.end)
    &&& (member.subsections.start < member.subsections.end ==> member.subsections.start
        >= owner.pages.end && member.subsections.start >= owner.subsections.end)
}

/// The arena invariant: every record's two child ranges are contiguous
/// slices of the record list lying strictly after the record, no two ranges
/// overlap, a child's own ranges begin only after both of its owner's
/// ranges end, every child points back at its owner, a record still waiting
/// to be scanned has no children yet, and every byte range lies within the
/// shared buffer.
pub open spec fn arena_wf(s: Sources) -> bool {
    let n = s.sources@.len() as int;
    &&& forall|i: int|
        0 <= i < n ==> crate::hierarchy::span_ok((#[trigger] s.sources@[i]).pages, i, n)
            && crate::hierarchy::span_ok(s.sources@[i].subsections, i, n)
            && s.sources@[i].source.start <= s.sources@[i].source.end <= s.data@.len()
            && s.sources@[i].parent < n
    &&& forall|i1: int, i2: int, j: int|
        0 <= i1 < n && 0 <= i2 < n && (#[trigger] s.sources@[i1].pages.holds(j)) && (
        #[trigger] s.sources@[i2].pages.holds(j)) ==> i1 == i2
    &&& forall|i1: int, i2: int, j: int|
        0 <= i1 < n && 0 <= i2 < n && (#[trigger] s.sources@[i1].subsections.holds(j)) && (
        #[trigger] s.sources@[i2].subsections.holds(j)) ==> i1 == i2
    &&& forall|i1: int, i2: int, j: int|
        0 <= i1 < n && 0 <= i2 < n ==> !((#[trigger] s.sources@[i1].pages.holds(j)) && (
        #[trigger] s.sources@[i2].subsections.holds(j)))
    &&& forall|i: int, j: int|
        0 <= i < n && (#[trigger] s.sources@[i].pages.holds(j)) ==> src_spans_after(
            s.sources@[i],
            s.sources@[j],
        ) && s.sources@[j].parent == i
    &&& forall|i: int, j: int|
        0 <= i < n && (#[trigger] s.sources@[i].subsections.holds(j)) ==> src_spans_after(
            s.sources@[i],
            s.sources@[j],
        ) && s.sources@[j].parent == i
    &&& forall|i: int|
        0 <= i < n && (#[trigger] s.sources@[i]).to_load is Some ==> s.sources@[i].pages == (
        Span { start: 0, end: 0 }) && s.sources@[i].subsections == (Span { start: 0, end: 0 })
}

/// The hand-off guarantee between the scanner and the hierarchy builder:
/// any page list whose child ranges mirror the records of a well-formed
/// arena satisfies the precondition of `Pages::from_sources`. Drafts built
/// with `Page::new` mirror their records by its contract.
pub proof fn lemma_arena_feeds_hierarchy(s: Sources, pages: Seq<crate::page::Page>)
    requires
        arena_wf(s),
        pages.len() == s.sources@.len(),
        forall|i: int|
            0 <= i < pages.len() ==> (#[trigger] pages[i]).pages == s.sources@[i].pages
                && pages[i].subsections == s.sources@[i].subsections,
    ensures
        crate::hierarchy::spans_wf(pages),
{
    let n = pages.len() as int;
    assert forall|i: int|
        0 <= i < n implies crate::hierarchy::span_ok((#[trigger] pages[i]).pages, i, n)
            && crate::hierarchy::span_ok(pages[i].subsections, i, n) by {
        assert(pages[i].pages == s.sources@[i].pages);
    }
    assert forall|i1: int, i2: int, j: int|
        0 <= i1 < n && 0 <= i2 < n && (#[trigger] pages[i1].pages.holds(j)) && (
    #[trigger] pages[i2].pages.holds(j)) implies i1 == i2 by {
        assert(s.sources@[i1].pages.holds(j));
        assert(s.sources@[i2].pages.holds(j));
    }
    assert forall|i1: int, i2: int, j: int|
        0 <= i1 < n && 0 <= i2 < n && (#[trigger] pages[i1].subsections.holds(j)) && (
    #[trigger] pages[i2].subsections.holds(j)) implies i1 == i2 by {
        assert(s.sources@[i1].subsections.holds(j));
        assert(s.sources@[i2].subsections.holds(j));
    }
    assert forall|i1: int, i2: int, j: int|
        0 <= i1 < n && 0 <= i2 < n implies !((#[trigger] pages[i1].pages.holds(j)) && (
    #[trigger] pages[i2].subsections.holds(j))) by {
        if pages[i1].pages.holds(j) && pages[i2].subsections.holds(j) {
            assert(s.sources@[i1].pages.holds(j));
            assert(s.sources@[i2].subsections.holds(j));
        }
    }
    assert forall|i: int, j: int|
        0 <= i < n && (#[trigger] pages[i].pages.holds(j)) implies crate::hierarchy::spans_after(
        pages[i],
        pages[j],
    ) by {
        assert(s.sources@[i].pages.holds(j));
        assert(src_spans_after(s.sources@[i], s.sources@[j]));
        assert(0 <= j < n);
        assert(pages[j].pages == s.sources@[j].pages);
    }
    assert forall|i: int, j: int|
        0 <= i < n && (#[trigger] pages[i].subsections.holds(j)) implies
        crate::hierarchy::spans_after(pages[i], pages[j]) by {
        assert(s.sources@[i].subsections.holds(j));
        assert(src_spans_after(s.sources@[i], s.sources@[j]));
        assert(0 <= j < n);
        assert(pages[j].pages == s.sources@[j].pages);
    }
}

/// One scan step preserves the arena invariant: the appended records have
/// no children yet and point at the stepped record, whose fresh ranges
/// cover exactly them, beyond every range handed out before.
#[verifier::rlimit(100)]
proof fn lemma_step_preserves_wf(pre: Sources, cur: Sources, index: int, nfi: int, ndi: int)
    requires
        arena_wf(pre),
        0 <= index < pre.sources@.len(),
        pre.sources@[index].to_load is Some,
        nfi >= 0,
        ndi >= 0,
        pre.sources@.len() + nfi + ndi <= usize::MAX,
        cur.sources@.len() == pre.sources@.len() + nfi + ndi,
        pre.data@.len() <= cur.data@.len(),
        forall|m: int|
            0 <= m < pre.sources@.len() && m != index ==> #[trigger] cur.sources@[m]
                == pre.sources@[m],
        forall|i: int|
            pre.sources@.len() <= i < cur.sources@.len() ==> (#[trigger] cur.sources@[i]).pages
                == (Span { start: 0, end: 0 }) && cur.sources@[i].subsections == (Span {
                start: 0,
                end: 0,
            }) && cur.sources@[i].parent == index && cur.sources@[i].source.start
                <= cur.sources@[i].source.end <= cur.data@.len(),
        ({
            let n0 = pre.sources@.len() as int;
            let r = cur.sources@[index];
            &&& r.pages == (Span { start: n0 as usize, end: (n0 + nfi) as usize })
            &&& r.subsections == (if ndi > 0 {
                Span { start: (n0 + nfi) as usize, end: (n0 + nfi + ndi) as usize }
            } else {
                Span { start: 0, end: 0 }
            })
            &&& r.parent == pre.sources@[index].parent
            &&& r.source.start <= r.source.end <= cur.data@.len()
            &&& r.to_load is None
        }),
    ensures
        arena_wf(cur),
{
    let n0 = pre.sources@.len() as int;
    let n2 = cur.sources@.len() as int;
    let ns = cur.sources@;
    assert(pre.sources@[index].pages == (Span { start: 0, end: 0 }));
    assert(pre.sources@[index].subsections == (Span { start: 0, end: 0 }));
    assert forall|i: int|
        0 <= i < n2 implies crate::hierarchy::span_ok((#[trigger] ns[i]).pages, i, n2)
            && crate::hierarchy::span_ok(ns[i].subsections, i, n2) && ns[i].source.start
            <= ns[i].source.end <= cur.data@.len() && ns[i].parent < n2 by {
        if i == index {
        } else if i < n0 {
            assert(ns[i] == pre.sources@[i]);
        } else {
        }
    }
    assert forall|i1: int, i2: int, j: int|
        0 <= i1 < n2 && 0 <= i2 < n2 && (#[trigger] ns[i1].pages.holds(j)) && (
    #[trigger] ns[i2].pages.holds(j)) implies i1 == i2 by {
        if i1 != i2 {
            if i1 < n0 && i1 != index && i2 < n0 && i2 != index {
                assert(pre.sources@[i1].pages.holds(j));
                assert(pre.sources@[i2].pages.holds(j));
            } else {
                if i1 == index || i2 == index {
                    assert(n0 <= j < n0 + nfi);
                    if i1 == index && i2 < n0 {
                        assert(pre.sources@[i2].pages.end <= n0);
                    }
                    if i2 == index && i1 < n0 {
                        assert(pre.sources@[i1].pages.end <= n0);
                    }
                }
            }
        }
    }
    assert forall|i1: int, i2: int, j: int|
        0 <= i1 < n2 && 0 <= i2 < n2 && (#[trigger] ns[i1].subsections.holds(j)) && (
    #[trigger] ns[i2].subsections.holds(j)) implies i1 == i2 by {
        if i1 != i2 {
            if i1 < n0 && i1 != index && i2 < n0 && i2 != index {
                assert(pre.sources@[i1].subsections.holds(j));
                assert(pre.sources@[i2].subsections.holds(j));
            } else {
                if i1 == index || i2 == index {
                    assert(n0 + nfi <= j < n2);
                    if i1 == index && i2 < n0 {
                        assert(pre.sources@[i2].subsections.end <= n0);
                    }
                    if i2 == index && i1 < n0 {
                        assert(pre.sources@[i1].subsections.end <= n0);
                    }
                }
            }
        }
    }
    assert forall|i1: int, i2: int, j: int|
        0 <= i1 < n2 && 0 <= i2 < n2 implies !((#[trigger] ns[i1].pages.holds(j)) && (
    #[trigger] ns[i2].subsections.holds(j))) by {
        if ns[i1].pages.holds(j) && ns[i2].subsections.holds(j) {
            if i1 < n0 && i1 != index && i2 < n0 && i2 != index {
                assert(pre.sources@[i1].pages.holds(j));
                assert(pre.sources@[i2].subsections.holds(j));
            } else if i1 == index && i2 == index {
                assert(n0 <= j < n0 + nfi && n0 + nfi <= j);
            } else if i1 == index {
                assert(n0 <= j < n0 + nfi);
                assert(i2 < n0);
                assert(pre.sources@[i2].subsections.end <= n0);
            } else if i2 == index {
                assert(n0 + nfi <= j < n2);
                assert(i1 < n0);
                assert(pre.sources@[i1].pages.end <= n0);
            }
        }
    }
    assert forall|i: int, j: int|
        0 <= i < n2 && (#[trigger] ns[i].pages.holds(j)) implies src_spans_after(ns[i], ns[j])
            && ns[j].parent == i by {
        if i == index {
            assert(n0 <= j < n0 + nfi);
        } else {
            assert(i < n0);
            assert(pre.sources@[i].pages.holds(j));
            assert(j < n0);
            if j == index {
                assert(pre.sources@[j].parent == i);
                assert(pre.sources@[i].pages.end <= n0);
                assert(pre.sources@[i].subsections.end <= n0);
            } else {
                assert(ns[j] == pre.sources@[j]);
            }
        }
    }
    assert forall|i: int, j: int|
        0 <= i < n2 && (#[trigger] ns[i].subsections.holds(j)) implies src_spans_after(
        ns[i],
        ns[j],
    ) && ns[j].parent == i by {
        if i == index {
            assert(n0 + nfi <= j < n2);
        } else {
            assert(i < n0);
            assert(pre.sources@[i].subsections.holds(j));
            assert(j < n0);
            if j == index {
                assert(pre.sources@[j].parent == i);
                assert(pre.sources@[i].pages.end <= n0);
                assert(pre.sources@[i].subsections.end <= n0);
            } else {
                assert(ns[j] == pre.sources@[j]);
            }
        }
    }
}

impl Sources {
    /// A fresh arena holding one placeholder for the content root.
    pub fn new(content_dir: String) -> (r: Sources)
        ensures
            arena_wf(r),
            r.sources@.len() == 1,
            r.sources@[0].is_section,
            r.sources@[0].parent == 0,
            r.sources@[0].to_load == Option::Some(content_dir),
            r.data@.len() == 0,
    {
        let mut sources: Vec<Source> = Vec::new();
        sources.push(Source::empty(content_dir, 0));
        Sources { data: Vec::new(), sources }
    }

    /// The first record at or after `from` that still waits for its
    /// directory to be scanned, with the directory path.
    pub fn next_pending(&self, from: usize) -> (r: Option<(usize, String)>)
        ensures
            match r {
                Option::Some((i, path)) => from <= i < self.sources@.len()
                    && self.sources@[i as int].to_load == Option::Some(path),
                Option::None => forall|i: int|
                    from <= i < self.sources@.len() ==> !((#[trigger] self.sources@[i]).to_load
                        is Some),
            },
    {
        let n = self.sources.len();
        let mut i = from;
        while i < n
            invariant
                from <= i,
                n == self.sources@.len(),
                forall|m: int|
                    from <= m < i ==> !((#[trigger] self.sources@[m]).to_load is Some),
            decreases n - i,
        {
            match &self.sources[i].to_load {
                Option::Some(p) => {
                    return Option::Some((i, p.clone()));
                },
                Option::None => {},
            }
            i = i + 1;
        }
        Option::None
    }

    /// Add all the sources of one scanned directory: append every
    /// recognized file's bytes to the shared buffer and one record per file,
    /// which together become the record's `pages` range; then one
    /// placeholder per subdirectory, which become its `subsections` range;
    /// finally fill the record itself from the directory's own `index` file,
    /// if it had one. The ranges are contiguous, freshly appended, and never
    /// interleave with another record's children.
    #[verifier::rlimit(100)]
    #[verifier::spinoff_prover]
    pub fn step(
        &mut self,
        index: usize,
        dir_path: String,
        files: Vec<FileEntry>,
        dirs: Vec<String>,
        index_file: Option<FileEntry>,
    )
        requires
            arena_wf(*old(self)),
            index < old(self).sources@.len(),
            old(self).sources@[index as int].to_load is Some,
        ensures
            arena_wf(*final(self)),
            ({
                let n0 = old(self).sources@.len() as int;
                let nf = files@.len() as int;
                let nd = dirs@.len() as int;
                let ns = final(self).sources@;
                &&& ns.len() == n0 + nf + nd
                &&& forall|m: int| 0 <= m < n0 && m != index ==> #[trigger] ns[m] == old(
                    self,
                ).sources@[m]
                &&& final(self).data@.subrange(0, old(self).data@.len() as int) == old(
                    self,
                ).data@
                &&& forall|k: int|
                    0 <= k < nf ==> ({
                        let r = #[trigger] ns[n0 + k];
                        &&& r.path@ == files@[k].path@
                        &&& !r.is_section
                        &&& r.parent == index
                        &&& r.date == files@[k].date
                        &&& r.format == files@[k].format
                        &&& r.to_load is None
                        &&& r.pages == (Span { start: 0, end: 0 })
                        &&& r.subsections == (Span { start: 0, end: 0 })
                        &&& r.source.start <= r.source.end <= final(self).data@.len()
                        &&& final(self).data@.subrange(r.source.start as int, r.source.end as int)
                            == files@[k].bytes@
                    })
                &&& forall|k: int|
                    0 <= k < nd ==> ({
                        let r = #[trigger] ns[n0 + nf + k];
                        &&& r.is_section
                        &&& r.parent == index
                        &&& r.to_load == Option::Some(dirs@[k])
                        &&& r.pages == (Span { start: 0, end: 0 })
                        &&& r.subsections == (Span { start: 0, end: 0 })
                    })
                &&& ({
                    let r = ns[index as int];
                    &&& r.path == dir_path
                    &&& r.to_load is None
                    &&& r.is_section == old(self).sources@[index as int].is_section
                    &&& r.parent == old(self).sources@[index as int].parent
                    &&& r.pages == (Span { start: n0 as usize, end: (n0 + nf) as usize })
                    &&& r.subsections == (if nd > 0 {
                        Span { start: (n0 + nf) as usize, end: (n0 + nf + nd) as usize }
                    } else {
                        Span { start: 0, end: 0 }
                    })
                    &&& r.source.start <= r.source.end <= final(self).data@.len()
                    &&& match index_file {
                        Option::Some(f) => final(self).data@.subrange(
                            r.source.start as int,
                            r.source.end as int,
                        ) == f.bytes@ && r.date == f.date && r.format == f.format,
                        Option::None => r.source.start == r.source.end && r.date == old(
                            self,
                        ).sources@[index as int].date && r.format == old(
                            self,
                        ).sources@[index as int].format,
                    }
                })
            }),
    {
        let ghost pre = *self;
        let ghost n0 = self.sources@.len() as int;
        let ghost d0 = self.data@.len() as int;
        let ghost fpaths = files@.map_values(|f: FileEntry| f.path@);
        let ghost fbytes = files@.map_values(|f: FileEntry| f.bytes@);
        let ghost fdates = files@.map_values(|f: FileEntry| f.date);
        let ghost fformats = files@.map_values(|f: FileEntry| f.format);
        let n0e = self.sources.len();
        let nf = files.len();
        let mut files = files;
        let mut k: usize = 0;
        while k < nf
            invariant
                k <= nf,
                files@.len() == nf - k,
                forall|m: int|
                    0 <= m < nf - k ==> (#[trigger] files@[m]).path@ == fpaths[m + k]
                        && files@[m].bytes@ == fbytes[m + k] && files@[m].date == fdates[m + k]
                        && files@[m].format == fformats[m + k],
                fpaths.len() == nf,
                fbytes.len() == nf,
                fdates.len() == nf,
                fformats.len() == nf,
                n0e == n0,
                self.sources@.len() == n0 + k,
                n0 == pre.sources@.len(),
                forall|m: int| 0 <= m < n0 ==> #[trigger] self.sources@[m] == pre.sources@[m],
                self.data@.len() >= d0,
                self.data@.subrange(0, d0) == pre.data@,
                d0 == pre.data@.len(),
                forall|m: int|
                    0 <= m < k ==> ({
                        let r = #[trigger] self.sources@[n0 + m];
                        &&& r.path@ == fpaths[m]
                        &&& !r.is_section
                        &&& r.parent == index
                        &&& r.date == fdates[m]
                        &&& r.format == fformats[m]
                        &&& r.to_load is None
                        &&& r.pages == (Span { start: 0, end: 0 })
                        &&& r.subsections == (Span { start: 0, end: 0 })
                        &&& r.source.start <= r.source.end <= self.data@.len()
                        &&& self.data@.subrange(r.source.start as int, r.source.end as int)
                            == fbytes[m]
                    }),
            decreases nf - k,
        {
            let ghost dmid = self.data@;
            let f = files.remove(0);
            let s0 = self.data.len();
            let mut bytes = f.bytes;
            self.data.append(&mut bytes);
            let s1 = self.data.len();
            self.sources.push(
                Source::new(f.path, Span { start: s0, end: s1 }, index, f.date, f.format),
            );
            proof {
                assert(self.data@ == dmid + fbytes[k as int]);
                assert(self.data@.subrange(0, d0) =~= pre.data@);
                assert(self.data@.subrange(s0 as int, s1 as int) =~= fbytes[k as int]);
                assert forall|m: int|
                    0 <= m < k implies self.data@.subrange(
                    (#[trigger] self.sources@[n0 + m]).source.start as int,
                    self.sources@[n0 + m].source.end as int,
                ) == fbytes[m] by {
                    let r = self.sources@[n0 + m];
                    assert(dmid.subrange(r.source.start as int, r.source.end as int) == fbytes[m]);
                    assert(self.data@.subrange(r.source.start as int, r.source.end as int)
                        =~= dmid.subrange(r.source.start as int, r.source.end as int));
                }
            }
            k = k + 1;
        }
        let endf = self.sources.len();
        let ghost mid1 = *self;
        let nd = dirs.len();
        let mut dirs = dirs;
        let ghost dpaths = dirs@;
        let mut k2: usize = 0;
        while k2 < nd
            invariant
                k2 <= nd,
                dirs@.len() == nd - k2,
                forall|m: int| 0 <= m < nd - k2 ==> #[trigger] dirs@[m] == dpaths[m + k2],
                dpaths.len() == nd,
                self.sources@.len() == mid1.sources@.len() + k2,
                self.data@ == mid1.data@,
                forall|m: int|
                    0 <= m < mid1.sources@.len() ==> #[trigger] self.sources@[m]
                        == mid1.sources@[m],
                forall|m: int|
                    0 <= m < k2 ==> ({
                        let r = #[trigger] self.sources@[mid1.sources@.len() + m];
                        &&& r.is_section
                        &&& r.parent == index
                        &&& r.to_load == Option::Some(dpaths[m])
                        &&& r.pages == (Span { start: 0, end: 0 })
                        &&& r.subsections == (Span { start: 0, end: 0 })
                        &&& r.source == (Span { start: 0, end: 0 })
                    }),
            decreases nd - k2,
        {
            let d = dirs.remove(0);
            self.sources.push(Source::empty(d, index));
            k2 = k2 + 1;
        }
        let len2 = self.sources.len();
        let ghost mid2 = *self;
        let s2 = self.data.len();
        let mut idate: Option<DateTime> = Option::None;
        let mut iformat: Option<Format> = Option::None;
        let ghost ibytes: Seq<u8> = match &index_file {
            Option::Some(f) => f.bytes@,
            Option::None => Seq::<u8>::empty(),
        };
        match index_file {
            Option::Some(f) => {
                let mut bytes = f.bytes;
                self.data.append(&mut bytes);
                idate = f.date;
                iformat = Option::Some(f.format);
            },
            Option::None => {},
        }
        let s3 = self.data.len();
        let ghost mid3 = *self;
        let mut rec = self.sources.remove(index);
        rec.path = dir_path;
        rec.source = Span { start: s2, end: s3 };
        rec.pages = Span { start: n0e, end: endf };
        rec.subsections = if len2 > endf {
            Span { start: endf, end: len2 }
        } else {
            Span { start: 0, end: 0 }
        };
        rec.to_load = Option::None;
        match iformat {
            Option::Some(fmt) => {
                rec.date = idate;
                rec.format = fmt;
            },
            Option::None => {},
        }
        self.sources.insert(index, rec);
        proof {
            let ns = self.sources@;
            let nfi = nf as int;
            let ndi = nd as int;
            let n2 = n0 + nfi + ndi;
            assert(ns.len() == n2);
            assert(forall|m: int|
                0 <= m < n2 && m != index ==> #[trigger] ns[m] == mid2.sources@[m]);
            assert(self.data@.subrange(0, d0) =~= pre.data@) by {
                assert(mid2.data@.subrange(0, d0) == pre.data@);
                assert(self.data@ == mid2.data@ + ibytes);
                assert(self.data@.subrange(0, d0) =~= mid2.data@.subrange(0, d0));
            }
            assert(self.data@.subrange(s2 as int, s3 as int) =~= ibytes);
            // the file records and their bytes
            assert forall|kk: int|
                0 <= kk < nfi implies ({
                let r = #[trigger] ns[n0 + kk];
                &&& r.path@ == fpaths[kk]
                &&& !r.is_section
                &&& r.parent == index
                &&& r.date == fdates[kk]
                &&& r.format == fformats[kk]
                &&& r.to_load is None
                &&& r.pages == (Span { start: 0, end: 0 })
                &&& r.subsections == (Span { start: 0, end: 0 })
                &&& r.source.start <= r.source.end <= self.data@.len()
                &&& self.data@.subrange(r.source.start as int, r.source.end as int) == fbytes[kk]
            }) by {
                assert(n0 + kk != index);
                assert(ns[n0 + kk] == mid2.sources@[n0 + kk]);
                assert(mid2.sources@[n0 + kk] == mid1.sources@[n0 + kk]);
                let r = ns[n0 + kk];
                assert(mid1.data@.subrange(r.source.start as int, r.source.end as int)
                    == fbytes[kk]);
                assert(mid2.data@ == mid1.data@);
                assert(self.data@.subrange(r.source.start as int, r.source.end as int)
                    =~= mid2.data@.subrange(r.source.start as int, r.source.end as int));
            }
            // the directory placeholders
            assert(forall|kk: int|
                0 <= kk < ndi ==> #[trigger] ns[n0 + nfi + kk] == mid2.sources@[n0 + nfi + kk]);
            // the shape of every record, indexed directly
            assert forall|i: int|
                n0 <= i < n0 + nfi implies (#[trigger] ns[i]).pages == (Span { start: 0, end: 0 })
                    && ns[i].subsections == (Span { start: 0, end: 0 }) && ns[i].parent == index
                    && !(ns[i].to_load is Some) && ns[i].source.start <= ns[i].source.end
                    <= self.data@.len() by {
                let kk = i - n0;
                assert(ns[n0 + kk] == ns[i]);
            }
            assert forall|i: int|
                n0 + nfi <= i < n2 implies (#[trigger] ns[i]).pages == (Span { start: 0, end: 0 })
                    && ns[i].subsections == (Span { start: 0, end: 0 }) && ns[i].parent == index
                    && ns[i].source.start <= ns[i].source.end <= self.data@.len() by {
                let kk = i - n0 - nfi;
                assert(ns[n0 + nfi + kk] == ns[i]);
                assert(ns[i] == mid2.sources@[n0 + nfi + kk]);
                assert(mid2.sources@[mid1.sources@.len() + kk].source == (Span {
                    start: 0,
                    end: 0,
                }));
            }
            assert(ns[index as int].pages == (Span { start: n0 as usize, end: (n0 + nfi) as usize }));
            assert(ns[index as int].parent == pre.sources@[index as int].parent);
            assert(ns[index as int].parent < n0);
            assert(forall|m: int|
                0 <= m < n0 && m != index ==> #[trigger] ns[m] == pre.sources@[m]);
            assert(pre.data@.len() <= self.data@.len()) by {
                assert(self.data@.subrange(0, d0) == pre.data@);
            }
            // the arena stays well-formed
            assert(self.sources@.len() <= usize::MAX) by {
                assert(self.sources@.len() == self.sources.len());
            }
            lemma_step_preserves_wf(pre, *self, index as int, nfi, ndi);
        }
    }

    /// Get a reference to the inner list of sources.
    pub fn sources(&self) -> (r: &Vec<Source>)
        ensures
            r == &self.sources,
    {
        &self.sources
    }

    /// The bytes of one record's source range.
    pub fn source_bytes(&self, i: usize) -> (r: Vec<u8>)
        requires
            i < self.sources@.len(),
            self.sources@[i as int].source.start <= self.sources@[i as int].source.end
                <= self.data@.len(),
        ensures
            r@ == self.data@.subrange(
                self.sources@[i as int].source.start as int,
                self.sources@[i as int].source.end as int,
            ),
    {
        let sp = self.sources[i].source;
        let sl = vstd::slice::slice_subrange(self.data.as_slice(), sp.start, sp.end);
        vstd::slice::slice_to_vec(sl)
    }
}

} // verus!
