//! The build-scoped ledger of rendered output paths, and the reconciliation
//! of a build's output against the manifest left by the previous build.

use vstd::prelude::*;
use vstd::pervasive::VecAdditionalExecFns;

verus! {

/// A map from output path to how many renders wrote it, kept as an
/// association list with unique keys. Each render task fills a private
/// ledger; the ledgers are merged once at the end of the build.
#[derive(Debug)]
pub struct Ledger {
    pub entries: Vec<(String, u64)>,
}

/// Saturating addition, the overflow rule of every ledger count.
pub open spec fn sat_add(a: int, b: int) -> int {
    if a + b <= u64::MAX {
        a + b
    } else {
        u64::MAX as int
    }
}

/// Whether the association list `s` holds the path `q`.
pub open spec fn entries_has(s: Seq<(String, u64)>, q: Seq<char>) -> bool {
    exists|i: int| 0 <= i < s.len() && (#[trigger] s[i]).0@ == q
}

/// The count the association list `s` holds for the path `q`, `0` if absent.
pub open spec fn entries_count(s: Seq<(String, u64)>, q: Seq<char>) -> int {
    if entries_has(s, q) {
        let i = choose|i: int| 0 <= i < s.len() && (#[trigger] s[i]).0@ == q;
        s[i].1 as int
    } else {
        0
    }
}

impl Ledger {
    /// Well-formed: no path occurs twice and every count is positive.
    pub open spec fn wf(self) -> bool {
        &&& forall|i: int, j: int|
            0 <= i < j < self.entries@.len() ==> (#[trigger] self.entries@[i]).0@ != (
            #[trigger] self.entries@[j]).0@
        &&& forall|i: int| 0 <= i < self.entries@.len() ==> (#[trigger] self.entries@[i]).1 >= 1
    }

    /// Whether some render wrote `p`.
    pub open spec fn spec_has(self, p: Seq<char>) -> bool {
        exists|i: int| 0 <= i < self.entries@.len() && (#[trigger] self.entries@[i]).0@ == p
    }

    /// How many renders wrote `p`.
    pub open spec fn spec_count(self, p: Seq<char>) -> int {
        if self.spec_has(p) {
            let i = choose|i: int|
                0 <= i < self.entries@.len() && (#[trigger] self.entries@[i]).0@ == p;
            self.entries@[i].1 as int
        } else {
            0
        }
    }

    pub fn new() -> (r: Ledger)
        ensures
            r.wf(),
            forall|p: Seq<char>| !r.spec_has(p),
    {
        Ledger { entries: Vec::new() }
    }

    /// The index of `path` in the ledger, if present.
    fn find(&self, path: &String) -> (r: Option<usize>)
        ensures
            match r {
                Option::Some(i) => i < self.entries@.len() && self.entries@[i as int].0@ == path@,
                Option::None => !self.spec_has(path@),
            },
    {
        let n = self.entries.len();
        let mut i: usize = 0;
        while i < n
            invariant
                i <= n,
                n == self.entries@.len(),
                forall|j: int| 0 <= j < i ==> (#[trigger] self.entries@[j]).0@ != path@,
            decreases n - i,
        {
            if self.entries[i].0.eq(path) {
                return Option::Some(i);
            }
            i = i + 1;
        }
        Option::None
    }

    /// Note that one render wrote `path`, raising its count by `n` (saturating
    /// at the numeric limit); a path seen for the first time enters with `n`.
    pub fn record_n(&mut self, path: String, n: u64)
        requires
            old(self).wf(),
            n >= 1,
        ensures
            final(self).wf(),
            final(self).spec_count(path@) == sat_add(old(self).spec_count(path@), n as int),
            forall|q: Seq<char>|
                q != path@ ==> #[trigger] final(self).spec_count(q) == old(self).spec_count(q),
            forall|q: Seq<char>|
                #[trigger] final(self).spec_has(q) <==> (old(self).spec_has(q) || q == path@),
    {
        let ghost pre = *self;
        match self.find(&path) {
            Option::Some(i) => {
                let c = self.entries[i].1;
                let c2: u64 = if c <= u64::MAX - n { c + n } else { u64::MAX };
                let key = self.entries[i].0.clone();
                self.entries.set(i, (key, c2));
                proof {
                    assert(forall|j: int|
                        0 <= j < self.entries@.len() ==> (#[trigger] self.entries@[j]).0@
                            == pre.entries@[j].0@);
                    assert forall|q: Seq<char>| #[trigger] self.spec_has(q) <==> pre.spec_has(q) by {
                        if self.spec_has(q) {
                            let a = choose|a: int|
                                0 <= a < self.entries@.len() && (#[trigger] self.entries@[a]).0@
                                    == q;
                            assert(pre.entries@[a].0@ == q);
                        }
                        if pre.spec_has(q) {
                            let b = choose|b: int|
                                0 <= b < pre.entries@.len() && (#[trigger] pre.entries@[b]).0@
                                    == q;
                            assert(self.entries@[b].0@ == q);
                        }
                    }
                    assert(self.wf());
                    assert forall|q: Seq<char>| q != path@ implies #[trigger] self.spec_count(q)
                        == pre.spec_count(q) by {
                        if self.spec_has(q) {
                            let a = choose|a: int|
                                0 <= a < self.entries@.len() && (#[trigger] self.entries@[a]).0@
                                    == q;
                            let b = choose|b: int|
                                0 <= b < pre.entries@.len() && (#[trigger] pre.entries@[b]).0@
                                    == q;
                            assert(pre.entries@[a].0@ == q);
                            assert(a == b);
                        }
                    }
                    assert(self.spec_has(path@));
                    let a = choose|a: int|
                        0 <= a < self.entries@.len() && (#[trigger] self.entries@[a]).0@ == path@;
                    assert(a == i);
                    let b = choose|b: int|
                        0 <= b < pre.entries@.len() && (#[trigger] pre.entries@[b]).0@ == path@;
                    assert(b == i);
                }
            },
            Option::None => {
                self.entries.push((path, n));
                proof {
                    let ghost m = pre.entries@.len() as int;
                    assert(self.entries@[m].0@ == path@);
                    assert(forall|j: int|
                        0 <= j < m ==> #[trigger] self.entries@[j] == pre.entries@[j]);
                    assert(self.wf());
                    assert forall|q: Seq<char>| #[trigger] self.spec_has(q) <==> (pre.spec_has(q)
                        || q == path@) by {
                        if self.spec_has(q) {
                            let a = choose|a: int|
                                0 <= a < self.entries@.len() && (#[trigger] self.entries@[a]).0@
                                    == q;
                            if a < m {
                                assert(pre.entries@[a].0@ == q);
                            } else {
                                assert(q == path@);
                            }
                        }
                        if pre.spec_has(q) {
                            let b = choose|b: int|
                                0 <= b < pre.entries@.len() && (#[trigger] pre.entries@[b]).0@
                                    == q;
                            assert(self.entries@[b].0@ == q);
                        }
                        assert(self.entries@[m].0@ == path@);
                    }
                    assert forall|q: Seq<char>| q != path@ implies #[trigger] self.spec_count(q)
                        == pre.spec_count(q) by {
                        if self.spec_has(q) {
                            let a = choose|a: int|
                                0 <= a < self.entries@.len() && (#[trigger] self.entries@[a]).0@
                                    == q;
                            assert(a < m);
                            assert(pre.entries@[a].0@ == q);
                            if pre.spec_has(q) {
                                let b = choose|b: int|
                                    0 <= b < pre.entries@.len() && (#[trigger] pre.entries@[b]).0@
                                        == q;
                                assert(a == b);
                            }
                        } else {
                            if pre.spec_has(q) {
                                let b = choose|b: int|
                                    0 <= b < pre.entries@.len() && (#[trigger] pre.entries@[b]).0@
                                        == q;
                                assert(self.entries@[b].0@ == q);
                            }
                            assert(!pre.spec_has(q));
                        }
                    }
                    let a = choose|a: int|
                        0 <= a < self.entries@.len() && (#[trigger] self.entries@[a]).0@ == path@;
                    assert(a == m);
                }
            },
        }
    }

    /// Fold another task's ledger into this one, summing the counts per path.
    pub fn merge(&mut self, other: &Ledger)
        requires
            old(self).wf(),
            other.wf(),
        ensures
            final(self).wf(),
            forall|q: Seq<char>|
                #[trigger] final(self).spec_count(q) == sat_add(
                    old(self).spec_count(q),
                    other.spec_count(q),
                ),
            forall|q: Seq<char>|
                #[trigger] final(self).spec_has(q) <==> (old(self).spec_has(q)
                    || other.spec_has(q)),
    {
        let ghost pre = *self;
        let n = other.entries.len();
        let mut i: usize = 0;
        proof {
            assert(other.entries@.subrange(0, 0) =~= Seq::<(String, u64)>::empty());
        }
        while i < n
            invariant
                self.wf(),
                other.wf(),
                n == other.entries@.len(),
                i <= n,
                forall|q: Seq<char>|
                    #[trigger] self.spec_count(q) == sat_add(
                        pre.spec_count(q),
                        entries_count(other.entries@.subrange(0, i as int), q),
                    ),
                forall|q: Seq<char>|
                    #[trigger] self.spec_has(q) <==> (pre.spec_has(q) || entries_has(
                        other.entries@.subrange(0, i as int),
                        q,
                    )),
            decreases n - i,
        {
            let key = other.entries[i].0.clone();
            let cnt = other.entries[i].1;
            let ghost mid = *self;
            let ghost keyv = key@;
            self.record_n(key, cnt);
            proof {
                let s = other.entries@;
                assert(s[i as int].0@ == keyv);
                assert(!entries_has(s.subrange(0, i as int), keyv)) by {
                    if entries_has(s.subrange(0, i as int), keyv) {
                        let w = choose|w: int|
                            0 <= w < s.subrange(0, i as int).len() && (#[trigger] s.subrange(
                                0,
                                i as int,
                            )[w]).0@ == keyv;
                        assert(s[w].0@ == keyv);
                    }
                }
                assert forall|q: Seq<char>|
                    #[trigger] self.spec_count(q) == sat_add(
                        pre.spec_count(q),
                        entries_count(s.subrange(0, i + 1), q),
                    ) && (#[trigger] self.spec_has(q) <==> (pre.spec_has(q) || entries_has(
                        s.subrange(0, i + 1),
                        q,
                    ))) by {
                    lemma_entries_prefix_step(s, i as int, q);
                    if q == keyv {
                        assert(entries_count(s.subrange(0, i as int), q) == 0);
                        assert(mid.spec_count(q) == sat_add(pre.spec_count(q), 0));
                        assert(self.spec_count(q) == sat_add(mid.spec_count(q), cnt as int));
                    }
                }
            }
            i = i + 1;
        }
        proof {
            assert(other.entries@.subrange(0, n as int) =~= other.entries@);
        }
    }

    /// The entries more than one render wrote: duplicate render targets, to
    /// be surfaced as warnings, never as errors. Which write's content ends
    /// up in such a file is whichever landed last — fixed within one run,
    /// but not across runs, since task scheduling is not.
    pub fn collisions(&self) -> (r: Vec<(String, u64)>)
        ensures
            r@ == self.entries@.filter(spec_collision()),
    {
        let ghost pred = spec_collision();
        let n = self.entries.len();
        let mut r: Vec<(String, u64)> = Vec::new();
        let mut i: usize = 0;
        proof {
            reveal(Seq::filter);
            assert(self.entries@.subrange(0, 0) =~= Seq::<(String, u64)>::empty());
            assert(Seq::<(String, u64)>::empty().filter(pred) =~= Seq::<(String, u64)>::empty());
        }
        while i < n
            invariant
                i <= n,
                n == self.entries@.len(),
                r@ == self.entries@.subrange(0, i as int).filter(spec_collision()),
            decreases n - i,
        {
            let ghost done = self.entries@.subrange(0, i as int);
            let ghost done2 = self.entries@.subrange(0, i + 1);
            proof {
                reveal(Seq::filter);
                assert(done2.drop_last() =~= done);
                assert(done2.last() == self.entries@[i as int]);
            }
            if self.entries[i].1 > 1 {
                r.push((self.entries[i].0.clone(), self.entries[i].1));
                proof {
                    assert(r@ =~= done2.filter(spec_collision()));
                }
            }
            i = i + 1;
        }
        proof {
            assert(self.entries@.subrange(0, n as int) =~= self.entries@);
        }
        r
    }

    /// Every path this build wrote, the content of the new manifest.
    pub fn paths(&self) -> (r: Vec<String>)
        ensures
            r@.len() == self.entries@.len(),
            forall|i: int| 0 <= i < r@.len() ==> (#[trigger] r@[i])@ == self.entries@[i].0@,
    {
        let n = self.entries.len();
        let mut r: Vec<String> = Vec::new();
        let mut i: usize = 0;
        while i < n
            invariant
                i <= n,
                n == self.entries@.len(),
                r@.len() == i,
                forall|j: int| 0 <= j < i ==> (#[trigger] r@[j])@ == self.entries@[j].0@,
            decreases n - i,
        {
            r.push(self.entries[i].0.clone());
            i = i + 1;
        }
        r
    }

    /// Note that one render wrote `path`.
    pub fn record(&mut self, path: String)
        requires
            old(self).wf(),
        ensures
            final(self).wf(),
            final(self).spec_count(path@) == sat_add(old(self).spec_count(path@), 1),
            forall|q: Seq<char>|
                q != path@ ==> #[trigger] final(self).spec_count(q) == old(self).spec_count(q),
            forall|q: Seq<char>|
                #[trigger] final(self).spec_has(q) <==> (old(self).spec_has(q) || q == path@),
    {
        self.record_n(path, 1);
    }
}

/// Extending a prefix of a duplicate-free association list by one entry
/// leaves every other path's count alone and gives the new entry its count.
proof fn lemma_entries_prefix_step(s: Seq<(String, u64)>, i: int, q: Seq<char>)
    requires
        0 <= i < s.len(),
        forall|j1: int, j2: int|
            0 <= j1 < j2 < s.len() ==> (#[trigger] s[j1]).0@ != (#[trigger] s[j2]).0@,
    ensures
        entries_has(s.subrange(0, i + 1), q) == (entries_has(s.subrange(0, i), q) || s[i].0@
            == q),
        entries_count(s.subrange(0, i + 1), q) == if s[i].0@ == q {
            s[i].1 as int
        } else {
            entries_count(s.subrange(0, i), q)
        },
{
    let a = s.subrange(0, i);
    let b = s.subrange(0, i + 1);
    assert(forall|j: int| 0 <= j < i ==> a[j] == s[j]);
    assert(forall|j: int| 0 <= j <= i ==> b[j] == s[j]);
    if entries_has(b, q) {
        let w = choose|w: int| 0 <= w < b.len() && (#[trigger] b[w]).0@ == q;
        if w < i {
            assert(a[w].0@ == q);
        } else {
            assert(s[i].0@ == q);
        }
    }
    if entries_has(a, q) {
        let w = choose|w: int| 0 <= w < a.len() && (#[trigger] a[w]).0@ == q;
        assert(b[w].0@ == q);
    }
    if s[i].0@ == q {
        assert(b[i].0@ == q);
        assert(entries_has(b, q));
        let w = choose|w: int| 0 <= w < b.len() && (#[trigger] b[w]).0@ == q;
        assert(s[w].0@ == q);
        assert(w == i);
    } else {
        if entries_has(b, q) {
            let w = choose|w: int| 0 <= w < b.len() && (#[trigger] b[w]).0@ == q;
            assert(w != i);
            assert(a[w].0@ == q);
            assert(entries_has(a, q));
            let wa = choose|wa: int| 0 <= wa < a.len() && (#[trigger] a[wa]).0@ == q;
            assert(s[wa].0@ == q && s[w].0@ == q);
            assert(wa == w);
        }
    }
}

/// Entries whose path more than one render wrote.
pub open spec fn spec_collision() -> spec_fn((String, u64)) -> bool {
    |e: (String, u64)| e.1 > 1
}

/// The views of a list of strings.
pub open spec fn path_views(s: Seq<String>) -> Seq<Seq<char>> {
    s.map_values(|x: String| x@)
}

/// The paths of the previous build that this build did not write again.
pub open spec fn spec_stale(led: Ledger) -> spec_fn(Seq<char>) -> bool {
    |p: Seq<char>| !led.spec_has(p)
}

/// Is the character a path separator?
pub open spec fn spec_is_separator(c: char) -> bool {
    c == '/'
}

/// One step of the stale-output cleanup: removing a single file, or a whole
/// directory once its index page is gone — a directory is owned by its index.
#[derive(Debug)]
pub enum DeleteAction {
    /// Delete this one file.
    File(String),
    /// Delete this directory and everything under it.
    Directory(String),
}

/// Whether a stale path `p` calls for removing a directory: it names the
/// `index.html` of some directory, keeping the trailing separator.
pub open spec fn spec_is_index_of_dir(p: Seq<char>) -> bool {
    p.len() >= 11 && p.subrange(p.len() - 10, p.len() as int) == "index.html"@
        && spec_is_separator(p[p.len() - 11])
}

/// The cleanup step a stale path calls for.
pub open spec fn action_matches(a: DeleteAction, p: Seq<char>) -> bool {
    if spec_is_index_of_dir(p) {
        match a {
            DeleteAction::Directory(d) => d@ == p.subrange(0, p.len() - 10),
            DeleteAction::File(_) => false,
        }
    } else {
        match a {
            DeleteAction::File(f) => f@ == p,
            DeleteAction::Directory(_) => false,
        }
    }
}

/// Decide what to delete after a build: every path the previous manifest
/// lists that no render of this build wrote, in manifest order; a path whose
/// file is a directory's `index.html` takes the whole directory with it.
/// Paths the new ledger still holds are left alone.
pub fn cleanup_plan(previous: &Vec<String>, led: &Ledger) -> (r: Vec<DeleteAction>)
    ensures
        ({
            let stale = path_views(previous@).filter(spec_stale(*led));
            &&& r@.len() == stale.len()
            &&& forall|i: int| 0 <= i < stale.len() ==> action_matches(#[trigger] r@[i], stale[i])
        }),
{
    let ghost pred = spec_stale(*led);
    let ghost pviews = path_views(previous@);
    let n = previous.len();
    let mut r: Vec<DeleteAction> = Vec::new();
    let mut j: usize = 0;
    proof {
        reveal(Seq::filter);
        assert(pviews.subrange(0, 0) =~= Seq::<Seq<char>>::empty());
        assert(Seq::<Seq<char>>::empty().filter(pred) =~= Seq::<Seq<char>>::empty());
    }
    while j < n
        invariant
            j <= n,
            n == previous@.len(),
            pviews == path_views(previous@),
            pred == spec_stale(*led),
            r@.len() == pviews.subrange(0, j as int).filter(pred).len(),
            forall|i: int|
                0 <= i < r@.len() ==> action_matches(
                    #[trigger] r@[i],
                    pviews.subrange(0, j as int).filter(pred)[i],
                ),
        decreases n - j,
    {
        let ghost done = pviews.subrange(0, j as int);
        let ghost done2 = pviews.subrange(0, j + 1);
        proof {
            assert(done2.drop_last() =~= done);
            assert(done2.last() == previous@[j as int]@);
        }
        let p = &previous[j];
        if led.find(p).is_none() {
            let action = delete_action_of(p);
            r.push(action);
            proof {
                reveal(Seq::filter);
                assert(pred(done2.last()));
                assert(done2.filter(pred) =~= done.filter(pred).push(done2.last()));
            }
        } else {
            proof {
                reveal(Seq::filter);
                assert(led.spec_has(p@));
                assert(!pred(done2.last()));
                assert(done2.filter(pred) =~= done.filter(pred));
            }
        }
        j = j + 1;
    }
    proof {
        assert(pviews.subrange(0, n as int) =~= pviews);
    }
    r
}

/// The cleanup step for one stale path.
fn delete_action_of(p: &String) -> (r: DeleteAction)
    ensures
        action_matches(r, p@),
{
    let s = p.as_str();
    let n = s.unicode_len();
    if n >= 11 {
        let tail = s.substring_char(n - 10, n);
        let index_name = String::from_str("index.html");
        if String::from_str(tail).eq(&index_name) && s.get_char(n - 11) == '/' {
            let dir = String::from_str(s.substring_char(0, n - 10));
            return DeleteAction::Directory(dir);
        }
    }
    DeleteAction::File(p.clone())
}

} // verus!
