//! The import resolver: a step machine that walks the import graph depth
//! first, one file at a time. The caller turns each requested path into a
//! canonical path, and each newly seen file into a parsed document; the
//! machine decides what is read next and in which order sessions are merged.
use vstd::prelude::*;
use vstd::string::*;
use vstd::seq_lib::lemma_flatten_concat;
use crate::paths::{home_dir, import_target, parent_dir, parent_of, resolve_import};
use crate::registry::{same_text, Session};

verus! {

/// One configuration file: the files it imports, in order, and the sessions
/// it defines itself, in order.
pub struct ConfigDocument {
    pub import: Vec<String>,
    pub session: Vec<Session>,
}

/// What the loader waits for.
#[derive(Clone, Copy, Debug, PartialEq, Eq, Structural)]
pub enum Phase {
    /// The canonical form of the path handed out last.
    Awaiting,
    /// The parsed document of the file just entered.
    Pending,
    /// A call of `advance`.
    Ready,
    /// Nothing: loading is over.
    Finished,
}

/// What `advance` asks of the caller.
pub enum Step {
    /// Canonicalise this path and pass it to `enter`.
    Open(String),
    /// A file was complete and its sessions were merged into the file that
    /// imported it; call `advance` again.
    Merged,
    /// Loading is over: every session, in registry order.
    Done(Vec<Session>),
}

/// A file being loaded, as the proofs see it.
pub ghost struct FrameView {
    /// Its canonical path.
    pub file: Seq<char>,
    /// The directory its relative imports are taken from.
    pub dir: Seq<char>,
    pub imports: Seq<Seq<char>>,
    /// How many imports have been handed out.
    pub next: nat,
    pub locals: Seq<Session>,
    /// What each import handled so far contributed, in order.
    pub parts: Seq<Seq<Session>>,
    /// How many files were complete when it was opened.
    pub start: nat,
}

/// The loader as the proofs see it.
pub ghost struct LoaderView {
    /// Canonical paths entered so far, in order.
    pub visited: Seq<Seq<char>>,
    /// Files being loaded, the one imported last on top.
    pub frames: Seq<FrameView>,
    /// The file entered last.
    pub pending: Seq<char>,
    pub phase: Phase,
    /// The home directory that imports are expanded against.
    pub home: Option<Seq<char>>,
    /// Files whose loading is complete, in the order they completed.
    pub finished: Seq<Seq<char>>,
    /// The sessions that each opened file defines itself.
    pub docs: Map<Seq<char>, Seq<Session>>,
}

/// What a file contributes once all its imports are handled: the sessions
/// of its imports, in the order they are listed, then its own.
pub open spec fn contribution(f: FrameView) -> Seq<Session> {
    f.parts.flatten() + f.locals
}

/// The texts of a sequence of strings.
pub open spec fn text_views(v: Seq<String>) -> Seq<Seq<char>> {
    v.map_values(|s: String| s@)
}

/// `f` with one more handled import, which contributed `p`.
pub open spec fn with_part(f: FrameView, p: Seq<Session>) -> FrameView {
    FrameView { parts: f.parts.push(p), ..f }
}

/// The frame of a newly opened document.
pub open spec fn fresh_frame(file: Seq<char>, doc: ConfigDocument, start: nat) -> FrameView {
    FrameView {
        file,
        dir: parent_dir(file),
        imports: text_views(doc.import@),
        next: 0,
        locals: doc.session@,
        parts: Seq::empty(),
        start,
    }
}

/// The sessions that `files` define themselves, one file after the other.
pub open spec fn sessions_of(files: Seq<Seq<char>>, docs: Map<Seq<char>, Seq<Session>>) -> Seq<Session> {
    files.map_values(|f: Seq<char>| docs[f]).flatten()
}

proof fn lemma_sessions_of_concat(a: Seq<Seq<char>>, b: Seq<Seq<char>>, docs: Map<Seq<char>, Seq<Session>>)
    ensures
        sessions_of(a + b, docs) == sessions_of(a, docs) + sessions_of(b, docs),
{
    let g = |f: Seq<char>| docs[f];
    assert((a + b).map_values(g) =~= a.map_values(g) + b.map_values(g));
    lemma_flatten_concat(a.map_values(g), b.map_values(g));
}

proof fn lemma_push_contains(s: Seq<Seq<char>>, p: Seq<char>, f: Seq<char>)
    requires
        s.contains(f),
    ensures
        s.push(p).contains(f),
{
    let i = choose|i: int| 0 <= i < s.len() && s[i] == f;
    assert(s.push(p)[i] == f);
}

proof fn lemma_sessions_of_insert(
    files: Seq<Seq<char>>,
    docs: Map<Seq<char>, Seq<Session>>,
    p: Seq<char>,
    v: Seq<Session>,
)
    requires
        !files.contains(p),
    ensures
        sessions_of(files, docs.insert(p, v)) == sessions_of(files, docs),
{
    assert(files.map_values(|f: Seq<char>| docs.insert(p, v)[f]) =~= files.map_values(|f: Seq<char>| docs[f]))
        by {
        assert forall|i: int| 0 <= i < files.len() implies files[i] != p by {
            if files[i] == p {
                assert(files.contains(p));
            }
        }
    }
}

/// The view of an optional text.
pub open spec fn opt_view(o: Option<String>) -> Option<Seq<char>> {
    match o {
        Some(s) => Some(s@),
        None => None,
    }
}

/// A loader for the configuration file at `path`, with nothing visited yet
/// and the current user's home directory, if it is known: it first waits
/// for the canonical form of `path`.
pub fn load_all_sessions(path: &str) -> (r: Loader)
    ensures
        r.wf(),
        r@.visited.len() == 0,
        r@.frames.len() == 0,
        r@.phase == Phase::Awaiting,
{
    Loader::new(path, home_dir())
}

struct Frame {
    file: String,
    dir: String,
    imports: Vec<String>,
    next: usize,
    locals: Vec<Session>,
    acc: Vec<Session>,
    parts: Ghost<Seq<Seq<Session>>>,
    start: Ghost<nat>,
}

impl Frame {
    spec fn view(&self) -> FrameView {
        FrameView {
            file: self.file@,
            dir: self.dir@,
            imports: text_views(self.imports@),
            next: self.next as nat,
            locals: self.locals@,
            parts: self.parts@,
            start: self.start@,
        }
    }

    /// `owed` is one when a child of this frame is still being loaded.
    spec fn wf(&self, owed: nat) -> bool {
        &&& self.dir@ == parent_dir(self.file@)
        &&& self.next <= self.imports.len()
        &&& self.acc@ == self.parts@.flatten()
        &&& self.parts@.len() + owed == self.next
    }
}

/// Resolves the imports of a configuration file and everything it imports.
pub struct Loader {
    visited: Vec<String>,
    stack: Vec<Frame>,
    pending: String,
    phase: Phase,
    home: Option<String>,
    finished: Ghost<Seq<Seq<char>>>,
    docs: Ghost<Map<Seq<char>, Seq<Session>>>,
}

impl Loader {
    /// A loader for the configuration file at `path`, with nothing visited
    /// yet and `home` as the home directory: it first waits for the
    /// canonical form of `path`.
    pub fn new(path: &str, home: Option<String>) -> (r: Loader)
        ensures
            r.wf(),
            r@.visited.len() == 0,
            r@.frames.len() == 0,
            r@.phase == Phase::Awaiting,
            r@.home == opt_view(home),
            r@.finished.len() == 0,
    {
        let r = Loader {
            visited: Vec::new(),
            stack: Vec::new(),
            pending: String::from_str(path),
            phase: Phase::Awaiting,
            home,
            finished: Ghost(Seq::empty()),
            docs: Ghost(Map::empty()),
        };
        assert(r.stack@.map_values(|f: Frame| f.view()) =~= Seq::<FrameView>::empty());
        assert(text_views(r.visited@) =~= Seq::<Seq<char>>::empty());
        r
    }

    pub closed spec fn view(&self) -> LoaderView {
        LoaderView {
            visited: text_views(self.visited@),
            frames: self.stack@.map_values(|f: Frame| f.view()),
            pending: self.pending@,
            phase: self.phase,
            home: opt_view(self.home),
            finished: self.finished@,
            docs: self.docs@,
        }
    }

    /// Whether frame `k` waits for a child.
    closed spec fn owed(&self, k: int) -> nat {
        if k < self.stack.len() - 1 || self.phase != Phase::Ready {
            1
        } else {
            0
        }
    }

    /// Where the files that completed after frame `k` was opened end.
    closed spec fn end_of(&self, k: int) -> nat {
        if k + 1 < self.stack.len() {
            self.stack@[k + 1].start@
        } else {
            self.finished@.len()
        }
    }

    /// Each frame's merged sessions are those of the files that completed
    /// while it was open; every file is entered once and completes once.
    closed spec fn tracks(&self) -> bool {
        let vis = text_views(self.visited@);
        let fin = self.finished@;
        &&& fin.no_duplicates()
        &&& forall|f: Seq<char>| fin.contains(f) ==> vis.contains(f)
        &&& self.stack.len() > 0 ==> self.stack@[0].start@ == 0
        &&& self.stack.len() == 0 && self.phase != Phase::Finished ==> fin.len() == 0
        &&& forall|k: int| 0 <= k < self.stack.len() ==> {
            &&& (#[trigger] self.stack@[k]).start@ <= self.end_of(k) <= fin.len()
            &&& self.stack@[k].acc@ == sessions_of(fin.subrange(self.stack@[k].start@ as int, self.end_of(k) as int), self.docs@)
            &&& !fin.contains(self.stack@[k].file@)
            &&& vis.contains(self.stack@[k].file@)
            &&& self.docs@[self.stack@[k].file@] == self.stack@[k].locals@
            &&& self.phase == Phase::Pending ==> self.stack@[k].file@ != self.pending@
        }
        &&& forall|j: int, k: int| 0 <= j < k < self.stack.len() ==> self.stack@[j].file@ != self.stack@[k].file@
        &&& self.phase == Phase::Pending ==> !fin.contains(self.pending@)
    }

    pub closed spec fn wf(&self) -> bool {
        &&& self.tracks()
        &&& forall|k: int| 0 <= k < self.stack.len() ==> (#[trigger] self.stack@[k]).wf(self.owed(k))
        &&& text_views(self.visited@).no_duplicates()
        &&& self.phase == Phase::Ready ==> self.stack.len() > 0
        &&& self.phase == Phase::Finished ==> self.stack.len() == 0
        &&& self.stack.len() == 0 && self.phase == Phase::Awaiting ==> self.visited.len() == 0
        &&& self.phase == Phase::Pending ==> text_views(self.visited@).contains(self.pending@)
    }

    /// Whether `c` was entered before.
    fn was_visited(&self, c: &str) -> (r: bool)
        ensures
            r == self@.visited.contains(c@),
    {
        let mut i: usize = 0;
        while i < self.visited.len()
            invariant
                i <= self.visited@.len(),
                forall|j: int| 0 <= j < i ==> (#[trigger] self.visited@[j])@ != c@,
            decreases self.visited@.len() - i,
        {
            if same_text(self.visited[i].as_str(), c) {
                assert(text_views(self.visited@)[i as int] == c@);
                return true;
            }
            i = i + 1;
        }
        assert(!text_views(self.visited@).contains(c@)) by {
            if text_views(self.visited@).contains(c@) {
                let j = choose|j: int| 0 <= j < text_views(self.visited@).len() && text_views(self.visited@)[j] == c@;
                assert(self.visited@[j]@ == c@);
            }
        }
        false
    }

    /// Takes the canonical path of the file requested last. A file entered
    /// before contributes nothing again: the import that led to it counts as
    /// handled, and `false` comes back. Otherwise the file is recorded as
    /// visited before its content is read, and `true` asks for its document.
    pub fn enter(&mut self, canonical: String) -> (fresh: bool)
        requires
            old(self).wf(),
            old(self)@.phase == Phase::Awaiting,
        ensures
            final(self).wf(),
            fresh == !old(self)@.visited.contains(canonical@),
            fresh ==> final(self)@ == (LoaderView {
                visited: old(self)@.visited.push(canonical@),
                pending: canonical@,
                phase: Phase::Pending,
                ..old(self)@
            }),
            !fresh ==> old(self)@.frames.len() > 0 && final(self)@ == (LoaderView {
                frames: old(self)@.frames.update(
                    old(self)@.frames.len() - 1,
                    with_part(old(self)@.frames.last(), Seq::empty()),
                ),
                phase: Phase::Ready,
                ..old(self)@
            }),
    {
        if self.was_visited(canonical.as_str()) {
            let ghost old_stack = self.stack@;
            let mut top = self.stack.pop().unwrap();
            top.parts = Ghost(top.parts@.push(Seq::empty()));
            proof {
                assert(top.parts@.flatten() == old_stack.last().parts@.flatten() + Seq::<Session>::empty()) by {
                    old_stack.last().parts@.lemma_flatten_push(Seq::empty());
                }
                assert(top.parts@.flatten() =~= old_stack.last().parts@.flatten());
            }
            self.stack.push(top);
            self.phase = Phase::Ready;
            assert(self.stack@ =~= old_stack.update(old_stack.len() - 1, top));
            assert forall|k: int| 0 <= k < self.stack.len() implies (#[trigger] self.stack@[k]).wf(self.owed(k)) by {
                if k < self.stack.len() - 1 {
                    assert(old(self).stack@[k].wf(old(self).owed(k)));
                }
            }
            assert(self.stack@.map_values(|f: Frame| f.view()) =~= old(self)@.frames.update(
                old(self)@.frames.len() - 1,
                with_part(old(self)@.frames.last(), Seq::empty()),
            ));
            assert forall|k: int| 0 <= k < self.stack.len() implies {
                &&& (#[trigger] self.stack@[k]).file@ == old(self).stack@[k].file@
                &&& self.stack@[k].start@ == old(self).stack@[k].start@
                &&& self.stack@[k].acc@ == old(self).stack@[k].acc@
                &&& self.stack@[k].locals@ == old(self).stack@[k].locals@
                &&& self.end_of(k) == old(self).end_of(k)
            } by {}
            assert(self.tracks());
            false
        } else {
            let ghost old_visited = self.visited@;
            self.pending = canonical.clone();
            self.visited.push(canonical);
            self.phase = Phase::Pending;
            assert(text_views(self.visited@) =~= text_views(old_visited).push(self.pending@));
            assert(text_views(self.visited@).no_duplicates());
            assert(text_views(self.visited@)[text_views(old_visited).len() as int] == self.pending@);
            assert forall|k: int| 0 <= k < self.stack.len() implies (#[trigger] self.stack@[k]).wf(self.owed(k)) by {
                assert(old(self).stack@[k].wf(old(self).owed(k)));
            }
            proof {
                let vis = text_views(old_visited);
                assert forall|f: Seq<char>| self.finished@.contains(f) implies text_views(self.visited@).contains(f) by {
                    lemma_push_contains(vis, self.pending@, f);
                }
                assert forall|k: int| 0 <= k < self.stack.len() implies {
                    &&& text_views(self.visited@).contains((#[trigger] self.stack@[k]).file@)
                    &&& self.stack@[k].file@ != self.pending@
                    &&& self.end_of(k) == old(self).end_of(k)
                } by {
                    lemma_push_contains(vis, self.pending@, self.stack@[k].file@);
                }
            }
            assert(self.tracks());
            true
        }
    }

    /// Takes the parsed document of the file entered last; its imports are
    /// handed out next, in the order they are listed.
    pub fn open(&mut self, doc: ConfigDocument)
        requires
            old(self).wf(),
            old(self)@.phase == Phase::Pending,
        ensures
            final(self).wf(),
            final(self)@ == (LoaderView {
                frames: old(self)@.frames.push(fresh_frame(old(self)@.pending, doc, old(self)@.finished.len())),
                phase: Phase::Ready,
                docs: old(self)@.docs.insert(old(self)@.pending, doc.session@),
                ..old(self)@
            }),
    {
        let ghost old_stack = self.stack@;
        let file = self.pending.clone();
        let dir = parent_of(file.as_str());
        let ghost d = doc;
        let frame = Frame {
            file,
            dir,
            imports: doc.import,
            next: 0,
            locals: doc.session,
            acc: Vec::new(),
            parts: Ghost(Seq::empty()),
            start: Ghost(self.finished@.len()),
        };
        assert(frame.acc@ =~= frame.parts@.flatten());
        let ghost old_docs = self.docs@;
        self.docs = Ghost(self.docs@.insert(frame.file@, frame.locals@));
        self.stack.push(frame);
        self.phase = Phase::Ready;
        assert(frame.view() == fresh_frame(old(self)@.pending, d, old(self)@.finished.len()));
        assert(self.stack@.map_values(|f: Frame| f.view()) =~= old(self)@.frames.push(fresh_frame(old(self)@.pending, d, old(self)@.finished.len())));
        assert(frame.acc@ == sessions_of(self.finished@.subrange(frame.start@ as int, frame.start@ as int), self.docs@)) by {
            assert(self.finished@.subrange(frame.start@ as int, frame.start@ as int).map_values(|f: Seq<char>| self.docs@[f]) =~= Seq::<Seq<Session>>::empty());
        }
        assert forall|k: int| 0 <= k < old_stack.len() implies
            (#[trigger] self.stack@[k]).acc@ == sessions_of(self.finished@.subrange(self.stack@[k].start@ as int, self.end_of(k) as int), self.docs@) by {
            assert(old_stack[k] == self.stack@[k]);
            assert(self.end_of(k) == old(self).end_of(k));
            let seg = self.finished@.subrange(self.stack@[k].start@ as int, self.end_of(k) as int);
            assert(!seg.contains(frame.file@)) by {
                if seg.contains(frame.file@) {
                    let i = choose|i: int| 0 <= i < seg.len() && seg[i] == frame.file@;
                    assert(self.finished@[self.stack@[k].start@ + i] == frame.file@);
                    assert(self.finished@.contains(frame.file@));
                }
            }
            lemma_sessions_of_insert(seg, old_docs, frame.file@, frame.locals@);
        }
        assert forall|k: int| 0 <= k < self.stack.len() implies (#[trigger] self.stack@[k]).wf(self.owed(k)) by {
            if k < self.stack.len() - 1 {
                assert(old_stack[k] == self.stack@[k]);
                assert(old(self).stack@[k].wf(old(self).owed(k)));
            }
        }
        assert forall|k: int| 0 <= k < old_stack.len() implies
            self.docs@[(#[trigger] self.stack@[k]).file@] == self.stack@[k].locals@ by {
            assert(old_stack[k] == self.stack@[k]);
        }
        assert(self.tracks());
    }

    /// One step of the walk over the top file. While it has imports left,
    /// the next one comes back as a path to open, resolved against the
    /// file's directory and the home directory. Once all are handled,
    /// the file's contribution (its imports' sessions in listed order, then
    /// its own) is merged into the file that imported it, or, for the first
    /// file, is the result.
    pub fn advance(&mut self) -> (s: Step)
        requires
            old(self).wf(),
            old(self)@.phase == Phase::Ready,
        ensures
            final(self).wf(),
            final(self)@.visited == old(self)@.visited,
            final(self)@.pending == old(self)@.pending,
            final(self)@.home == old(self)@.home,
            final(self)@.docs == old(self)@.docs,
            ({
                let fs = old(self)@.frames;
                let top = fs.last();
                let h = old(self)@.home;
                &&& fs.len() > 0
                &&& top.next < top.imports.len() ==> {
                    &&& s matches Step::Open(p) && p@ == import_target(top.dir, top.imports[top.next as int], h)
                    &&& final(self)@.frames == fs.update(fs.len() - 1, FrameView { next: top.next + 1, ..top })
                    &&& final(self)@.phase == Phase::Awaiting
                    &&& final(self)@.finished == old(self)@.finished
                }
                &&& top.next >= top.imports.len() ==> {
                    &&& top.parts.len() == top.imports.len()
                    &&& final(self)@.finished == old(self)@.finished.push(top.file)
                    &&& fs.len() == 1 ==> {
                        &&& s matches Step::Done(v) && v@ == contribution(top)
                            && v@ == sessions_of(final(self)@.finished, final(self)@.docs)
                        &&& final(self)@.frames.len() == 0
                        &&& final(self)@.phase == Phase::Finished
                    }
                    &&& fs.len() > 1 ==> {
                        &&& s is Merged
                        &&& final(self)@.frames == fs.drop_last().update(
                            fs.len() - 2,
                            with_part(fs[fs.len() - 2], contribution(top)),
                        )
                        &&& final(self)@.phase == Phase::Ready
                    }
                }
            }),
    {
        let ghost old_stack = self.stack@;
        let mut top = self.stack.pop().unwrap();
        assert(old(self).stack@[old_stack.len() - 1].wf(old(self).owed(old_stack.len() - 1)));
        if top.next < top.imports.len() {
            let home: Option<&str> = match &self.home {
                Some(h) => Some(h.as_str()),
                None => None,
            };
            let p = resolve_import(top.dir.as_str(), top.imports[top.next].as_str(), home);
            top.next = top.next + 1;
            self.stack.push(top);
            self.phase = Phase::Awaiting;
            assert(self.stack@ =~= old_stack.update(old_stack.len() - 1, top));
            assert(self.stack@.map_values(|f: Frame| f.view()) =~= old(self)@.frames.update(
                old_stack.len() - 1,
                FrameView { next: old(self)@.frames.last().next + 1, ..old(self)@.frames.last() },
            ));
            assert forall|k: int| 0 <= k < self.stack.len() implies (#[trigger] self.stack@[k]).wf(self.owed(k)) by {
                if k < self.stack.len() - 1 {
                    assert(old(self).stack@[k].wf(old(self).owed(k)));
                }
            }
            Step::Open(p)
        } else {
            let ghost tv = top.view();
            let mut result = top.acc;
            result.append(&mut top.locals);
            assert(result@ == contribution(tv));
            let ghost fin = self.finished@;
            let ghost n: int = fin.len() as int;
            self.finished = Ghost(self.finished@.push(tv.file));
            proof {
                let fin2 = self.finished@;
                let one = seq![tv.file];
                assert(fin2.subrange(tv.start as int, n + 1) =~= fin.subrange(tv.start as int, n as int) + one);
                lemma_sessions_of_concat(fin.subrange(tv.start as int, n as int), one, self.docs@);
                assert(one.map_values(|f: Seq<char>| self.docs@[f]) =~= seq![self.docs@[tv.file]]);
                seq![self.docs@[tv.file]].lemma_flatten_one_element();
                assert(result@ == sessions_of(fin2.subrange(tv.start as int, n + 1), self.docs@));
                assert forall|k: int| 0 <= k < self.stack.len() implies {
                    &&& #[trigger] self.stack@[k] == old(self).stack@[k]
                    &&& self.end_of(k) == old(self).end_of(k) || k == self.stack.len() - 1
                } by {}
                assert forall|a: int, b: int| 0 <= a <= b <= n implies #[trigger] fin2.subrange(a, b) == fin.subrange(a, b) by {
                    assert(fin2.subrange(a, b) =~= fin.subrange(a, b));
                }
                assert(fin2.no_duplicates()) by {
                    assert(!fin.contains(tv.file));
                }
            }
            if self.stack.len() == 0 {
                proof {
                    assert(self.finished@.subrange(0, n + 1) =~= self.finished@);
                }
                self.phase = Phase::Finished;
                assert(self.stack@.map_values(|f: Frame| f.view()) =~= Seq::<FrameView>::empty());
                Step::Done(result)
            } else {
                let ghost mid_stack = self.stack@;
                let mut parent = self.stack.pop().unwrap();
                assert(old(self).stack@[old_stack.len() - 2].wf(old(self).owed(old_stack.len() - 2)));
                let ghost pparts = parent.parts@;
                parent.acc.append(&mut result);
                parent.parts = Ghost(parent.parts@.push(contribution(tv)));
                proof {
                    pparts.lemma_flatten_push(contribution(tv));
                    let fin2 = self.finished@;
                    let ps = parent.start@ as int;
                    assert(fin2.subrange(ps, n + 1) =~= fin2.subrange(ps, tv.start as int) + fin2.subrange(tv.start as int, n + 1));
                    lemma_sessions_of_concat(fin2.subrange(ps, tv.start as int), fin2.subrange(tv.start as int, n + 1), self.docs@);
                }
                self.stack.push(parent);
                assert(self.stack@ =~= mid_stack.update(mid_stack.len() - 1, parent));
                assert(self.stack@.map_values(|f: Frame| f.view()) =~= old(self)@.frames.drop_last().update(
                    old_stack.len() - 2,
                    with_part(old(self)@.frames[old_stack.len() - 2], contribution(tv)),
                ));
                assert forall|k: int| 0 <= k < self.stack.len() implies (#[trigger] self.stack@[k]).wf(self.owed(k)) by {
                    if k < self.stack.len() - 1 {
                        assert(old(self).stack@[k].wf(old(self).owed(k)));
                    }
                }
                Step::Merged
            }
        }
    }

    /// Every file is loaded at most once, whatever the import graph: the
    /// canonical paths entered are distinct, so a file imported again,
    /// directly or through a cycle, is never read twice; and the files whose
    /// sessions have been merged are distinct files that were entered. With
    /// the result of the last step being the sessions of those files one
    /// after the other, no file's sessions appear twice.
    pub proof fn lemma_each_file_once(&self)
        requires
            self.wf(),
        ensures
            self@.visited.no_duplicates(),
            self@.finished.no_duplicates(),
            forall|f: Seq<char>| self@.finished.contains(f) ==> self@.visited.contains(f),
    {
    }

    /// What the loader waits for.
    pub fn phase(&self) -> (p: Phase)
        ensures
            p == self@.phase,
    {
        self.phase
    }
}

} // verus!
