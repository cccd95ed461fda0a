use vstd::prelude::*;

use crate::sql::models::NFile;
use crate::text::{join_path, joined, text_is};

verus! {

/// What the server answered when asked for the size of an entry.
pub enum SizeReply {
    /// The entry is a file of this many bytes.
    Bytes(usize),
    /// The server answered without a size.
    Unknown,
    /// The server refused: the entry is taken for a folder.
    Failed,
}

/// What becomes of an entry of a folder listing.
pub enum Entry {
    /// A file to upload.
    File(NFile),
    /// A folder to list, by its path.
    Folder(String),
    /// Neither.
    Skip,
}

/// The meaning of an [`Entry`].
pub enum EntryView {
    File(Seq<char>, Seq<char>),
    Folder(Seq<char>),
    Skip,
}

impl Entry {
    pub open spec fn view(self) -> EntryView {
        match self {
            Entry::File(f) => EntryView::File(f.path@, f.filename@),
            Entry::Folder(p) => EntryView::Folder(p@),
            Entry::Skip => EntryView::Skip,
        }
    }
}

/// The names that a listing holds and that are never entered as folders.
pub open spec fn special_name(name: Seq<char>) -> bool {
    ||| name == seq!['.']
    ||| name == seq!['.', '.']
    ||| name == seq!['.', 't', 'r', 'a', 's', 'h']
}

/// An entry `name` of folder `dir` is a file to upload where its size is known
/// and not zero, or unknown; it is skipped where its size is zero; it is a
/// folder to list where asking for its size failed, unless its name is one of
/// the special names.
pub open spec fn entry_view(dir: Seq<char>, name: Seq<char>, size: SizeReply) -> EntryView {
    match size {
        SizeReply::Bytes(n) => if n != 0 {
            EntryView::File(dir, name)
        } else {
            EntryView::Skip
        },
        SizeReply::Unknown => EntryView::File(dir, name),
        SizeReply::Failed => if special_name(name) {
            EntryView::Skip
        } else {
            EntryView::Folder(joined(dir, name))
        },
    }
}

/// Decides what an entry of a folder listing is, from the server's answer to
/// the size of the entry.
pub fn classify_entry(dir: &str, name: &str, size: SizeReply) -> (e: Entry)
    ensures
        e@ == entry_view(dir@, name@, size),
        size matches SizeReply::Bytes(n) && n != 0 ==> e@ == EntryView::File(dir@, name@),
        size is Unknown ==> e@ == EntryView::File(dir@, name@),
        size == SizeReply::Bytes(0) ==> e@ == EntryView::Skip,
{
    match size {
        SizeReply::Bytes(n) => if n != 0 {
            Entry::File(NFile { path: String::from_str(dir), filename: String::from_str(name) })
        } else {
            Entry::Skip
        },
        SizeReply::Unknown => Entry::File(
            NFile { path: String::from_str(dir), filename: String::from_str(name) },
        ),
        SizeReply::Failed => {
            proof {
                reveal_strlit(".");
                reveal_strlit("..");
                reveal_strlit(".trash");
                assert("."@ =~= seq!['.']);
                assert(".."@ =~= seq!['.', '.']);
                assert(".trash"@ =~= seq!['.', 't', 'r', 'a', 's', 'h']);
            }
            if text_is(name, ".") || text_is(name, "..") || text_is(name, ".trash") {
                Entry::Skip
            } else {
                Entry::Folder(join_path(dir, name))
            }
        },
    }
}

/// An entry whose size is known and not zero is a file to upload, whatever the
/// size; so is one whose size is unknown; one of size zero is skipped; one
/// whose size could not be had, below a folder other than the root, is the
/// folder at that folder's path, a slash and the name.
pub proof fn lemma_sized_entries(dir: Seq<char>, name: Seq<char>, n: usize)
    ensures
        n != 0 ==> entry_view(dir, name, SizeReply::Bytes(n)) == EntryView::File(dir, name),
        entry_view(dir, name, SizeReply::Unknown) == EntryView::File(dir, name),
        entry_view(dir, name, SizeReply::Bytes(0)) == EntryView::Skip,
        !special_name(name) && dir != seq!['/'] ==> entry_view(dir, name, SizeReply::Failed)
            == EntryView::Folder(dir + seq!['/'] + name),
{
}

/// A folder entry is only ever made of an entry whose size could not be had
/// and whose name is none of `.`, `..` and `.trash`.
pub proof fn lemma_special_names_not_entered(dir: Seq<char>, name: Seq<char>, size: SizeReply)
    ensures
        entry_view(dir, name, size) is Folder ==> size is Failed && !special_name(name),
        special_name(name) ==> !(entry_view(dir, name, size) is Folder),
{
}


/// A folder that is being gone through: its path, the names its listing gave,
/// how many of them were dealt with, and how many files had been found before it.
struct Frame {
    dir: String,
    names: Vec<String>,
    next: usize,
    base: usize,
}

/// The meaning of a folder being gone through.
pub struct FrameView {
    pub dir: Seq<char>,
    pub names: Seq<Seq<char>>,
    pub next: nat,
    pub base: nat,
}

impl Frame {
    spec fn view(&self) -> FrameView {
        FrameView { dir: self.dir@, names: self.names.deep_view(), next: self.next as nat, base: self.base as nat }
    }
}

/// The meaning of a walk: the folder whose listing is awaited, if any, the
/// folders being gone through, innermost last, and the files found so far as
/// folder and name.
pub struct WalkView {
    pub pending: Option<Seq<char>>,
    pub frames: Seq<FrameView>,
    pub files: Seq<(Seq<char>, Seq<char>)>,
}

/// What the walk asks of its caller next.
pub enum WalkAction {
    /// List the folder at this path and hand the names to `on_listing`.
    List(String),
    /// Ask the size of the entry at this path and hand the answer to `on_size`.
    Size(String),
    /// A folder was gone through; where a count is given, report that many
    /// files found in the folder that holds it.
    Leave(Option<usize>),
    /// The walk is over.
    Done,
}

/// The meaning of a [`WalkAction`].
pub enum WalkActionView {
    List(Seq<char>),
    Size(Seq<char>),
    Leave(Option<nat>),
    Done,
}

impl WalkAction {
    pub open spec fn view(self) -> WalkActionView {
        match self {
            WalkAction::List(p) => WalkActionView::List(p@),
            WalkAction::Size(p) => WalkActionView::Size(p@),
            WalkAction::Leave(r) => WalkActionView::Leave(count_of(r)),
            WalkAction::Done => WalkActionView::Done,
        }
    }
}

/// A count as a number.
pub open spec fn count_of(r: Option<usize>) -> Option<nat> {
    match r {
        Some(n) => Some(n as nat),
        None => None,
    }
}

/// A count of files found in one folder is reported after every hundredth file.
pub open spec fn progress_report(count: nat) -> Option<nat> {
    if count != 0 && count % 100 == 0 {
        Some(count)
    } else {
        None
    }
}

/// The next request of a walk, and the walk after it: a listing while one is
/// awaited; the size of the next entry of the innermost folder while it has one;
/// leaving the innermost folder once all its entries were dealt with, with the
/// progress report of the folder that holds it; the end once no folder is left.
pub open spec fn walk_next(w: WalkView) -> (WalkView, WalkActionView) {
    match w.pending {
        Some(p) => (w, WalkActionView::List(p)),
        None => if w.frames.len() == 0 {
            (w, WalkActionView::Done)
        } else {
            let top = w.frames.last();
            if top.next < top.names.len() {
                (w, WalkActionView::Size(joined(top.dir, top.names[top.next as int])))
            } else {
                let rest = w.frames.drop_last();
                (
                    WalkView { frames: rest, ..w },
                    WalkActionView::Leave(
                        if rest.len() == 0 {
                            None
                        } else {
                            progress_report((w.files.len() - rest.last().base) as nat)
                        },
                    ),
                )
            }
        },
    }
}

/// A walk after the listing of the awaited folder came: that folder is gone
/// through next. Without a listing awaited the walk stays as it is.
pub open spec fn walk_listed(w: WalkView, names: Seq<Seq<char>>) -> WalkView {
    match w.pending {
        Some(p) => WalkView {
            pending: None,
            frames: w.frames.push(FrameView { dir: p, names: names, next: 0, base: w.files.len() }),
            files: w.files,
        },
        None => w,
    }
}

/// Whether a walk waits for the size of the next entry of its innermost folder.
pub open spec fn awaits_size(w: WalkView) -> bool {
    &&& w.pending is None
    &&& w.frames.len() > 0
    &&& w.frames.last().next < w.frames.last().names.len()
}

/// A walk after the size of the next entry came, and the progress report that
/// comes with it: a file is added, a folder is awaited for listing, or the
/// entry is skipped; after a file or a skipped entry, the count of files of the
/// innermost folder is reported as `progress_report` says. Where no size was
/// awaited the walk stays as it is.
pub open spec fn walk_sized(w: WalkView, size: SizeReply) -> (WalkView, Option<nat>) {
    if awaits_size(w) {
        let top = w.frames.last();
        let moved = w.frames.update(w.frames.len() - 1, FrameView { next: top.next + 1, ..top });
        match entry_view(top.dir, top.names[top.next as int], size) {
            EntryView::File(d, n) => {
                let files = w.files.push((d, n));
                (
                    WalkView { pending: None, frames: moved, files: files },
                    progress_report((files.len() - top.base) as nat),
                )
            },
            EntryView::Folder(p) => (WalkView { pending: Some(p), frames: moved, files: w.files }, None),
            EntryView::Skip => (
                WalkView { pending: None, frames: moved, files: w.files },
                progress_report((w.files.len() - top.base) as nat),
            ),
        }
    } else {
        (w, None)
    }
}

/// Goes through the folders of the server depth first, as a sequence of
/// requests: the caller performs each request and hands back the answer.
pub struct FolderWalk {
    pending: Option<String>,
    frames: Vec<Frame>,
    files: Vec<NFile>,
}

impl View for FolderWalk {
    type V = WalkView;

    closed spec fn view(&self) -> WalkView {
        WalkView {
            pending: match self.pending {
                Some(p) => Some(p@),
                None => None,
            },
            frames: self.frames@.map_values(|f: Frame| f.view()),
            files: self.files@.map_values(|f: NFile| (f.path@, f.filename@)),
        }
    }
}

/// A walk is well formed where each folder's next entry lies within its
/// listing and each folder started at no more files than were found.
pub open spec fn walk_wf(w: WalkView) -> bool {
    forall|i: int|
        #![trigger w.frames[i]]
        0 <= i < w.frames.len() ==> w.frames[i].next <= w.frames[i].names.len()
            && w.frames[i].base <= w.files.len()
}

impl FolderWalk {
    /// The walk's invariant.
    pub open spec fn wf(&self) -> bool {
        walk_wf(self@)
    }

    /// A walk that starts by listing `root`.
    pub fn new(root: String) -> (w: Self)
        ensures
            w.wf(),
            w@ == (WalkView { pending: Some(root@), frames: Seq::empty(), files: Seq::empty() }),
    {
        let w = FolderWalk { pending: Some(root), frames: Vec::new(), files: Vec::new() };
        proof {
            assert(w@.frames =~= Seq::<FrameView>::empty());
            assert(w@.files =~= Seq::<(Seq<char>, Seq<char>)>::empty());
        }
        w
    }

    /// The files found so far, in the order found.
    pub fn into_files(self) -> (files: Vec<NFile>)
        ensures
            files@.map_values(|f: NFile| (f.path@, f.filename@)) == self@.files,
    {
        self.files
    }

    /// The next request of the walk.
    pub fn next_action(&mut self) -> (a: WalkAction)
        requires
            old(self).wf(),
        ensures
            final(self).wf(),
            (final(self)@, a@) == walk_next(old(self)@),
    {
        match &self.pending {
            Some(p) => {
                return WalkAction::List(p.clone());
            },
            None => {},
        }
        let k = self.frames.len();
        if k == 0 {
            return WalkAction::Done;
        }
        let top = &self.frames[k - 1];
        assert(self@.frames[k - 1] == top.view());
        if top.next < top.names.len() {
            let path = join_path(top.dir.as_str(), top.names[top.next].as_str());
            return WalkAction::Size(path);
        }
        let ghost old_view = self@;
        let _ = self.frames.pop();
        proof {
            assert(self@.frames =~= old_view.frames.drop_last());
        }
        let report = if k == 1 {
            None
        } else {
            let parent = &self.frames[k - 2];
            assert(self@.frames[k - 2] == parent.view());
            assert(old_view.frames[k - 2].base <= old_view.files.len());
            progress(self.files.len() - parent.base)
        };
        WalkAction::Leave(report)
    }

    /// Hands the walk the names listed in the awaited folder.
    pub fn on_listing(&mut self, names: Vec<String>)
        requires
            old(self).wf(),
        ensures
            final(self).wf(),
            final(self)@ == walk_listed(old(self)@, names.deep_view()),
    {
        let ghost old_view = self@;
        let pending = self.pending.take();
        match pending {
            Some(dir) => {
                let frame = Frame { dir, names, next: 0, base: self.files.len() };
                self.frames.push(frame);
                proof {
                    assert(self@.frames =~= old_view.frames.push(frame.view()));
                }
            },
            None => {},
        }
    }

    /// Hands the walk the server's answer to the size of the awaited entry.
    /// `Some(count)` asks to report `count` files found.
    pub fn on_size(&mut self, size: SizeReply) -> (report: Option<usize>)
        requires
            old(self).wf(),
        ensures
            final(self).wf(),
            (final(self)@, count_of(report)) == walk_sized(old(self)@, size),
    {
        let ghost old_view = self@;
        let k = self.frames.len();
        if self.pending.is_some() || k == 0 {
            return None;
        }
        if self.frames[k - 1].next >= self.frames[k - 1].names.len() {
            assert(self@.frames[k - 1] == self.frames@[k - 1].view());
            return None;
        }
        let mut top = self.frames.pop().unwrap();
        proof {
            assert(old_view.frames.last() == top.view());
        }
        let entry = classify_entry(top.dir.as_str(), top.names[top.next].as_str(), size);
        top.next = top.next + 1;
        let base = top.base;
        self.frames.push(top);
        proof {
            assert(self@.frames =~= old_view.frames.update(k - 1, top.view()));
        }
        match entry {
            Entry::File(f) => {
                self.files.push(f);
                proof {
                    assert(self@.files =~= old_view.files.push((f.path@, f.filename@)));
                }
                progress(self.files.len() - base)
            },
            Entry::Folder(p) => {
                self.pending = Some(p);
                None
            },
            Entry::Skip => progress(self.files.len() - base),
        }
    }
}

/// A server as a walk sees it: the names that each folder lists, and the
/// answer to the size of each path.
pub struct Server {
    pub listing: spec_fn(Seq<char>) -> Seq<Seq<char>>,
    pub size: spec_fn(Seq<char>) -> SizeReply,
}

/// The files that entry `name` of folder `dir` brings, listed the way a
/// recursive listing lists them, with `depth` more folder levels allowed; none
/// where that is too few.
pub open spec fn entry_files(srv: Server, dir: Seq<char>, name: Seq<char>, depth: nat) -> Option<
    Seq<(Seq<char>, Seq<char>)>,
>
    decreases depth, 1int,
{
    match entry_view(dir, name, (srv.size)(joined(dir, name))) {
        EntryView::File(d, n) => Some(seq![(d, n)]),
        EntryView::Folder(p) => folder_files(srv, p, depth),
        EntryView::Skip => Some(Seq::empty()),
    }
}

/// The files that the entries `names[from..]` of folder `dir` bring, in order.
pub open spec fn entries_files(
    srv: Server,
    dir: Seq<char>,
    names: Seq<Seq<char>>,
    from: int,
    depth: nat,
) -> Option<Seq<(Seq<char>, Seq<char>)>>
    decreases depth, names.len() + 2 - from,
{
    if from < 0 || from >= names.len() {
        Some(Seq::empty())
    } else {
        match (entry_files(srv, dir, names[from], depth), entries_files(srv, dir, names, from + 1, depth)) {
            (Some(a), Some(b)) => Some(a + b),
            _ => None,
        }
    }
}

/// The files that a recursive listing of folder `dir` finds, depth first and in
/// the order of each listing, where the folders below `dir` nest fewer than
/// `depth` levels deep; none otherwise.
pub open spec fn folder_files(srv: Server, dir: Seq<char>, depth: nat) -> Option<
    Seq<(Seq<char>, Seq<char>)>,
>
    decreases depth, 0int,
{
    if depth == 0 {
        None
    } else {
        entries_files(srv, dir, (srv.listing)(dir), 0, (depth - 1) as nat)
    }
}

/// A walk after one request, answered by the server.
pub open spec fn walk_answer(srv: Server, w: WalkView) -> WalkView {
    let (next, action) = walk_next(w);
    match action {
        WalkActionView::List(p) => walk_listed(next, (srv.listing)(p)),
        WalkActionView::Size(p) => walk_sized(next, (srv.size)(p)).0,
        _ => next,
    }
}

/// A walk after `steps` requests, answered by the server.
pub open spec fn walk_run(srv: Server, w: WalkView, steps: nat) -> WalkView
    decreases steps,
{
    if steps == 0 {
        w
    } else {
        walk_run(srv, walk_answer(srv, w), (steps - 1) as nat)
    }
}

/// A walk that starts by listing `root`.
pub open spec fn walk_start(root: Seq<char>) -> WalkView {
    WalkView { pending: Some(root), frames: Seq::empty(), files: Seq::empty() }
}

/// The files that the folders being gone through still bring, innermost first;
/// the folder at stack position `i` has `depth - i - 1` levels left.
pub open spec fn stack_files(srv: Server, frames: Seq<FrameView>, depth: nat) -> Option<
    Seq<(Seq<char>, Seq<char>)>,
>
    decreases frames.len(),
{
    if frames.len() == 0 {
        Some(Seq::empty())
    } else if depth < frames.len() {
        None
    } else {
        let top = frames.last();
        match (
            entries_files(srv, top.dir, top.names, top.next as int, (depth - frames.len()) as nat),
            stack_files(srv, frames.drop_last(), depth),
        ) {
            (Some(a), Some(b)) => Some(a + b),
            _ => None,
        }
    }
}

/// The files that the folder awaiting its listing brings.
pub open spec fn pending_files(srv: Server, w: WalkView, depth: nat) -> Option<
    Seq<(Seq<char>, Seq<char>)>,
> {
    match w.pending {
        Some(p) => if w.frames.len() <= depth {
            folder_files(srv, p, (depth - w.frames.len()) as nat)
        } else {
            None
        },
        None => Some(Seq::empty()),
    }
}

/// A walk is on its way to `expected`: the files found so far, then those the
/// awaited folder brings, then those the folders being gone through still
/// bring, make up `expected`.
pub open spec fn walk_tracks(
    srv: Server,
    w: WalkView,
    depth: nat,
    expected: Seq<(Seq<char>, Seq<char>)>,
) -> bool {
    &&& w.frames.len() <= depth
    &&& pending_files(srv, w, depth) is Some
    &&& stack_files(srv, w.frames, depth) is Some
    &&& expected == w.files + pending_files(srv, w, depth)->0 + stack_files(srv, w.frames, depth)->0
}

/// One answered request keeps a walk on its way to the same files.
pub proof fn lemma_walk_answer_tracks(
    srv: Server,
    w: WalkView,
    depth: nat,
    expected: Seq<(Seq<char>, Seq<char>)>,
)
    requires
        walk_tracks(srv, w, depth, expected),
    ensures
        walk_tracks(srv, walk_answer(srv, w), depth, expected),
{
    let k = w.frames.len();
    let w2 = walk_answer(srv, w);
    match w.pending {
        Some(p) => {
            let names = (srv.listing)(p);
            let frame = FrameView { dir: p, names: names, next: 0, base: w.files.len() };
            assert(w2.frames == w.frames.push(frame));
            assert(w2.frames.drop_last() =~= w.frames);
            let a = pending_files(srv, w, depth)->0;
            let b = stack_files(srv, w.frames, depth)->0;
            assert(stack_files(srv, w2.frames, depth) == Some(a + b));
            assert(expected =~= w2.files + Seq::<(Seq<char>, Seq<char>)>::empty() + (a + b));
        },
        None => {
            if k == 0 {
            } else {
                let top = w.frames.last();
                let b = stack_files(srv, w.frames.drop_last(), depth)->0;
                let e = entries_files(srv, top.dir, top.names, top.next as int, (depth - k) as nat)->0;
                if top.next < top.names.len() {
                    let name = top.names[top.next as int];
                    let top2 = FrameView { next: top.next + 1, ..top };
                    let moved = w.frames.update(k - 1, top2);
                    assert(moved.drop_last() =~= w.frames.drop_last());
                    assert(moved.last() == top2);
                    let rest = entries_files(srv, top.dir, top.names, top.next + 1int, (depth - k) as nat)->0;
                    let here = entry_files(srv, top.dir, name, (depth - k) as nat)->0;
                    assert(e == here + rest);
                    assert(stack_files(srv, moved, depth) == Some(rest + b));
                    match entry_view(top.dir, name, (srv.size)(joined(top.dir, name))) {
                        EntryView::File(d, n) => {
                            assert(w2.files == w.files.push((d, n)));
                            assert(expected =~= w2.files + Seq::<(Seq<char>, Seq<char>)>::empty() + (rest + b));
                        },
                        EntryView::Folder(fp) => {
                            assert(w2.pending == Some(fp));
                            assert(pending_files(srv, w2, depth) == Some(here));
                            assert(expected =~= w2.files + here + (rest + b));
                        },
                        EntryView::Skip => {
                            assert(expected =~= w2.files + Seq::<(Seq<char>, Seq<char>)>::empty() + (rest + b));
                        },
                    }
                } else {
                    assert(w2.frames == w.frames.drop_last());
                    assert(e == Seq::<(Seq<char>, Seq<char>)>::empty());
                    assert(expected =~= w2.files + Seq::<(Seq<char>, Seq<char>)>::empty() + b);
                }
            }
        },
    }
}

/// Answered by a server whose folders below `root` nest fewer than `depth`
/// levels deep, a walk from `root` stays on its way to the files that a
/// recursive listing of `root` finds, and once it asks for nothing more it
/// has found exactly those files, in the same order.
pub proof fn lemma_walk_finds_folder_files(srv: Server, root: Seq<char>, depth: nat, steps: nat)
    requires
        folder_files(srv, root, depth) is Some,
    ensures
        walk_tracks(srv, walk_run(srv, walk_start(root), steps), depth, folder_files(srv, root, depth)->0),
        walk_next(walk_run(srv, walk_start(root), steps)).1 is Done ==> walk_run(
            srv,
            walk_start(root),
            steps,
        ).files == folder_files(srv, root, depth)->0,
    decreases steps,
{
    let expected = folder_files(srv, root, depth)->0;
    if steps == 0 {
        assert(expected =~= Seq::<(Seq<char>, Seq<char>)>::empty() + expected + Seq::<(Seq<char>, Seq<char>)>::empty());
    } else {
        lemma_walk_finds_folder_files(srv, root, depth, (steps - 1) as nat);
        lemma_walk_run_last(srv, walk_start(root), steps);
        lemma_walk_answer_tracks(srv, walk_run(srv, walk_start(root), (steps - 1) as nat), depth, expected);
    }
    let w = walk_run(srv, walk_start(root), steps);
    if walk_next(w).1 is Done {
        assert(w.files + Seq::<(Seq<char>, Seq<char>)>::empty() + Seq::<(Seq<char>, Seq<char>)>::empty() =~= w.files);
    }
}

proof fn lemma_walk_run_last(srv: Server, w: WalkView, steps: nat)
    requires
        steps > 0,
    ensures
        walk_run(srv, w, steps) == walk_answer(srv, walk_run(srv, w, (steps - 1) as nat)),
    decreases steps,
{
    if steps > 1 {
        lemma_walk_run_last(srv, walk_answer(srv, w), (steps - 1) as nat);
        assert(walk_run(srv, w, (steps - 1) as nat) == walk_run(srv, walk_answer(srv, w), (steps - 2) as nat));
    } else {
        assert(walk_run(srv, walk_answer(srv, w), 0) == walk_answer(srv, w));
    }
    assert(walk_run(srv, w, steps) == walk_run(srv, walk_answer(srv, w), (steps - 1) as nat));
}

/// The requests that entry `name` of folder `dir` costs a walk: one size
/// request, and for a folder all the requests of that folder.
pub open spec fn entry_steps(srv: Server, dir: Seq<char>, name: Seq<char>, depth: nat) -> Option<nat>
    decreases depth, 1int,
{
    match entry_view(dir, name, (srv.size)(joined(dir, name))) {
        EntryView::Folder(p) => match folder_steps(srv, p, depth) {
            Some(n) => Some(n + 1),
            None => None,
        },
        _ => Some(1),
    }
}

/// The requests that the entries `names[from..]` of folder `dir` cost a walk.
pub open spec fn entries_steps(
    srv: Server,
    dir: Seq<char>,
    names: Seq<Seq<char>>,
    from: int,
    depth: nat,
) -> Option<nat>
    decreases depth, names.len() + 2 - from,
{
    if from < 0 || from >= names.len() {
        Some(0)
    } else {
        match (entry_steps(srv, dir, names[from], depth), entries_steps(srv, dir, names, from + 1, depth)) {
            (Some(a), Some(b)) => Some(a + b),
            _ => None,
        }
    }
}

/// The requests that a walk of folder `dir` costs: for each folder below it
/// and itself one listing and one leaving, and for each listed name one size
/// request; none where the folders nest `depth` levels or deeper.
pub open spec fn folder_steps(srv: Server, dir: Seq<char>, depth: nat) -> Option<nat>
    decreases depth, 0int,
{
    if depth == 0 {
        None
    } else {
        match entries_steps(srv, dir, (srv.listing)(dir), 0, (depth - 1) as nat) {
            Some(n) => Some(n + 2),
            None => None,
        }
    }
}

/// The requests that the folders being gone through still cost, each its
/// remaining entries and its leaving.
pub open spec fn stack_steps(srv: Server, frames: Seq<FrameView>, depth: nat) -> Option<nat>
    decreases frames.len(),
{
    if frames.len() == 0 {
        Some(0)
    } else if depth < frames.len() {
        None
    } else {
        let top = frames.last();
        match (
            entries_steps(srv, top.dir, top.names, top.next as int, (depth - frames.len()) as nat),
            stack_steps(srv, frames.drop_last(), depth),
        ) {
            (Some(a), Some(b)) => Some(a + 1 + b),
            _ => None,
        }
    }
}

/// The requests that a walk still makes before it ends.
pub open spec fn walk_remaining(srv: Server, w: WalkView, depth: nat) -> Option<nat> {
    let pending = match w.pending {
        Some(p) => if w.frames.len() <= depth {
            folder_steps(srv, p, (depth - w.frames.len()) as nat)
        } else {
            None
        },
        None => Some(0),
    };
    match (pending, stack_steps(srv, w.frames, depth)) {
        (Some(a), Some(b)) => if w.frames.len() <= depth {
            Some(a + b)
        } else {
            None
        },
        _ => None,
    }
}

/// A walk with requests left is not over, and one without is.
pub proof fn lemma_remaining_zero_is_done(srv: Server, w: WalkView, depth: nat)
    requires
        walk_remaining(srv, w, depth) is Some,
    ensures
        walk_remaining(srv, w, depth)->0 == 0 <==> walk_next(w).1 is Done,
{
    match w.pending {
        Some(p) => {
            let k = w.frames.len();
            if (depth - k) as nat > 0 {
                assert(folder_steps(srv, p, (depth - k) as nat)->0 >= 2);
            }
        },
        None => {},
    }
}

/// Each answered request leaves one request fewer.
pub proof fn lemma_walk_answer_remaining(srv: Server, w: WalkView, depth: nat)
    requires
        walk_remaining(srv, w, depth) is Some,
        walk_remaining(srv, w, depth)->0 > 0,
    ensures
        walk_remaining(srv, walk_answer(srv, w), depth) == Some(
            (walk_remaining(srv, w, depth)->0 - 1) as nat,
        ),
{
    let k = w.frames.len();
    let w2 = walk_answer(srv, w);
    match w.pending {
        Some(p) => {
            let names = (srv.listing)(p);
            let frame = FrameView { dir: p, names: names, next: 0, base: w.files.len() };
            assert(w2.frames == w.frames.push(frame));
            assert(w2.frames.drop_last() =~= w.frames);
            assert(depth - k > 0);
            let e = entries_steps(srv, p, names, 0, (depth - k - 1) as nat)->0;
            let b = stack_steps(srv, w.frames, depth)->0;
            assert(folder_steps(srv, p, (depth - k) as nat) == Some(e + 2));
            assert(stack_steps(srv, w2.frames, depth) == Some(e + 1 + b));
            assert(w2.pending is None);
            assert(walk_remaining(srv, w, depth) == Some(e + 2 + b));
            assert(walk_remaining(srv, w2, depth) == Some(e + 1 + b));
        },
        None => {
            lemma_remaining_zero_is_done(srv, w, depth);
            let top = w.frames.last();
            if top.next < top.names.len() {
                let name = top.names[top.next as int];
                let top2 = FrameView { next: top.next + 1, ..top };
                let moved = w.frames.update(k - 1, top2);
                assert(moved.drop_last() =~= w.frames.drop_last());
                assert(moved.last() == top2);
                let b = stack_steps(srv, w.frames.drop_last(), depth)->0;
                let rest = entries_steps(srv, top.dir, top.names, top.next + 1int, (depth - k) as nat)->0;
                let here = entry_steps(srv, top.dir, name, (depth - k) as nat)->0;
                assert(stack_steps(srv, w.frames, depth) == Some(here + rest + 1 + b));
                assert(stack_steps(srv, moved, depth) == Some(rest + 1 + b));
                match entry_view(top.dir, name, (srv.size)(joined(top.dir, name))) {
                    EntryView::Folder(fp) => {
                        assert(w2.pending == Some(fp));
                        assert(walk_remaining(srv, w2, depth) == Some((here - 1) as nat + rest + 1 + b));
                    },
                    _ => {
                        assert(here == 1);
                        assert(walk_remaining(srv, w2, depth) == Some(rest + 1 + b));
                    },
                }
            } else {
                assert(w2.frames == w.frames.drop_last());
                let b = stack_steps(srv, w.frames.drop_last(), depth)->0;
                assert(stack_steps(srv, w.frames, depth) == Some(0 + 1 + b));
                assert(walk_remaining(srv, w2, depth) == Some(b));
            }
        },
    }
}

/// Answered by a server whose folders below `root` nest fewer than `depth`
/// levels deep, a walk from `root` ends: it asks for nothing more after exactly
/// as many requests as `folder_steps` counts, one listing and one leaving per
/// folder and one size request per listed name, and not before.
pub proof fn lemma_walk_ends(srv: Server, root: Seq<char>, depth: nat, steps: nat)
    requires
        folder_steps(srv, root, depth) is Some,
        steps <= folder_steps(srv, root, depth)->0,
    ensures
        walk_remaining(srv, walk_run(srv, walk_start(root), steps), depth) == Some(
            (folder_steps(srv, root, depth)->0 - steps) as nat,
        ),
        walk_next(walk_run(srv, walk_start(root), steps)).1 is Done <==> steps == folder_steps(
            srv,
            root,
            depth,
        )->0,
    decreases steps,
{
    if steps > 0 {
        lemma_walk_ends(srv, root, depth, (steps - 1) as nat);
        lemma_walk_run_last(srv, walk_start(root), steps);
        lemma_walk_answer_remaining(srv, walk_run(srv, walk_start(root), (steps - 1) as nat), depth);
    }
    lemma_remaining_zero_is_done(srv, walk_run(srv, walk_start(root), steps), depth);
}

/// Answered by a server whose folders below `root` nest fewer than `depth`
/// levels deep, a walk from `root` ends after `folder_steps` requests having
/// found exactly the files that a recursive listing of `root` finds.
pub proof fn lemma_walk_lists_folder(srv: Server, root: Seq<char>, depth: nat)
    requires
        folder_steps(srv, root, depth) is Some,
        folder_files(srv, root, depth) is Some,
    ensures
        walk_next(walk_run(srv, walk_start(root), folder_steps(srv, root, depth)->0)).1 is Done,
        walk_run(srv, walk_start(root), folder_steps(srv, root, depth)->0).files == folder_files(
            srv,
            root,
            depth,
        )->0,
{
    let n = folder_steps(srv, root, depth)->0;
    lemma_walk_ends(srv, root, depth, n);
    lemma_walk_finds_folder_files(srv, root, depth, n);
}

/// The progress report for a count of files.
fn progress(count: usize) -> (r: Option<usize>)
    ensures
        count_of(r) == progress_report(count as nat),
{
    if count != 0 && count % 100 == 0 {
        Some(count)
    } else {
        None
    }
}

} // verus!
