use vstd::prelude::*;

use crate::sql::models::NFile;
use crate::text::{join_path, joined};

verus! {

/// Bytes fetched between two progress marks.
pub const BYTES_PER_MARK: u64 = 500000;

/// After this many bytes the progress marks start again from one dot.
pub open spec fn mark_cycle() -> nat {
    3 * BYTES_PER_MARK as nat
}

/// The status text shown after `dots` marks: the words, then `dots` dots padded
/// with spaces to three places.
pub open spec fn progress_text(dots: nat) -> Seq<char> {
    seq!['g', 'e', 't', 't', 'i', 'n', 'g', ' ', ' ', ' ', 'f', 'i', 'l', 'e', ' ']
        + Seq::new(dots, |i: int| '.') + Seq::new((3 - dots) as nat, |i: int| ' ')
}

/// The counter after one more byte.
pub open spec fn next_count(count: nat) -> nat {
    if count + 1 == mark_cycle() {
        0
    } else {
        count + 1
    }
}

/// The mark that one more byte brings, if any.
pub open spec fn mark_after(count: nat) -> Option<Seq<char>> {
    if (count + 1) % (BYTES_PER_MARK as nat) == 0 {
        Some(progress_text(((count + 1) / (BYTES_PER_MARK as nat)) as nat))
    } else {
        None
    }
}

/// The counter after `bytes` bytes from a fresh start.
pub open spec fn count_after(bytes: nat) -> nat
    decreases bytes,
{
    if bytes == 0 {
        0
    } else {
        next_count(count_after((bytes - 1) as nat))
    }
}

/// Counts the bytes of a file being fetched and says when to flush what was
/// fetched and show a new progress mark.
pub struct DownloadProgress {
    count: u64,
}

impl DownloadProgress {
    #[verifier::type_invariant]
    spec fn below_cycle(self) -> bool {
        self.count < mark_cycle()
    }

    /// Bytes counted since the marks last started again.
    pub closed spec fn count(self) -> nat {
        self.count as nat
    }

    /// A counter before the first byte.
    pub fn new() -> (p: Self)
        ensures
            p.count() == 0,
    {
        DownloadProgress { count: 0 }
    }

    /// Counts one more byte. `Some(text)` means: write out the bytes held so far
    /// and show `text`.
    pub fn on_byte(&mut self) -> (mark: Option<String>)
        ensures
            old(self).count() < mark_cycle(),
            final(self).count() < mark_cycle(),
            final(self).count() == next_count(old(self).count()),
            mark matches Some(t) ==> mark_after(old(self).count()) == Some(t@),
            mark is None ==> mark_after(old(self).count()) is None,
    {
        proof {
            use_type_invariant(&*self);
        }
        let c = self.count + 1;
        let mark = if c % BYTES_PER_MARK == 0 {
            let dots = c / BYTES_PER_MARK;
            assert(1 <= dots <= 3);
            Some(progress_line(dots))
        } else {
            None
        };
        if c == 3 * BYTES_PER_MARK {
            self.count = 0;
        } else {
            self.count = c;
        }
        mark
    }
}

/// What to do when a progress mark is due: write `bytes` to the local file,
/// then show `text`.
pub struct Flush {
    pub bytes: Vec<u8>,
    pub text: String,
}

/// A file being fetched: holds the bytes fetched since the last write and
/// hands them out, in order, whenever a progress mark is due.
pub struct Download {
    progress: DownloadProgress,
    held: Vec<u8>,
    fetched: Ghost<Seq<u8>>,
    handed_out: Ghost<Seq<u8>>,
}

impl Download {
    /// The bytes fetched so far.
    pub closed spec fn fetched(&self) -> Seq<u8> {
        self.fetched@
    }

    /// The bytes handed out for writing so far, in the order handed out.
    pub closed spec fn handed_out(&self) -> Seq<u8> {
        self.handed_out@
    }

    /// The bytes held, not yet handed out.
    pub closed spec fn held(&self) -> Seq<u8> {
        self.held@
    }

    /// Bytes counted since the marks last started again.
    pub closed spec fn count(&self) -> nat {
        self.progress.count()
    }

    /// The download's invariant: what was handed out, then what is held, is
    /// everything fetched; and the counter lies within the mark cycle.
    pub open spec fn wf(&self) -> bool {
        &&& self.handed_out() + self.held() == self.fetched()
        &&& self.count() < mark_cycle()
    }

    /// A download before its first byte.
    pub fn new() -> (d: Self)
        ensures
            d.wf(),
            d.fetched() == Seq::<u8>::empty(),
            d.handed_out() == Seq::<u8>::empty(),
            d.held() == Seq::<u8>::empty(),
            d.count() == 0,
    {
        let d = Download {
            progress: DownloadProgress::new(),
            held: Vec::new(),
            fetched: Ghost(Seq::empty()),
            handed_out: Ghost(Seq::empty()),
        };
        assert(d.handed_out() + d.held() =~= d.fetched());
        d
    }

    /// Takes one more fetched byte. Where a progress mark is due, all held
    /// bytes, this one last, are handed out with the mark's text.
    pub fn on_byte(&mut self, byte: u8) -> (flush: Option<Flush>)
        requires
            old(self).wf(),
        ensures
            final(self).wf(),
            final(self).fetched() == old(self).fetched().push(byte),
            final(self).count() == next_count(old(self).count()),
            match flush {
                Some(f) => {
                    &&& mark_after(old(self).count()) == Some(f.text@)
                    &&& f.bytes@ == old(self).held().push(byte)
                    &&& final(self).held() == Seq::<u8>::empty()
                    &&& final(self).handed_out() == old(self).handed_out() + f.bytes@
                },
                None => {
                    &&& mark_after(old(self).count()) is None
                    &&& final(self).held() == old(self).held().push(byte)
                    &&& final(self).handed_out() == old(self).handed_out()
                },
            },
    {
        self.held.push(byte);
        self.fetched = Ghost(self.fetched@.push(byte));
        let mark = self.progress.on_byte();
        match mark {
            Some(text) => {
                let mut bytes: Vec<u8> = Vec::new();
                std::mem::swap(&mut bytes, &mut self.held);
                self.handed_out = Ghost(self.handed_out@ + bytes@);
                proof {
                    assert(self.handed_out() + self.held() =~= self.fetched());
                }
                Some(Flush { bytes, text })
            },
            None => {
                proof {
                    assert(self.handed_out() + self.held() =~= self.fetched());
                }
                None
            },
        }
    }

    /// Ends the download: the held bytes, to be written last. With them,
    /// everything fetched has been handed out once, in the order fetched.
    pub fn finish(self) -> (rest: Vec<u8>)
        requires
            self.wf(),
        ensures
            rest@ == self.held(),
            self.handed_out() + rest@ == self.fetched(),
    {
        self.held
    }
}

/// Builds the status text for `dots` marks.
fn progress_line(dots: u64) -> (r: String)
    requires
        dots <= 3,
    ensures
        r@ == progress_text(dots as nat),
{
    let mut r = String::from_str("getting   file ");
    proof {
        reveal_strlit("getting   file ");
        reveal_strlit(".");
        reveal_strlit(" ");
    }
    let ghost words = r@;
    let mut i: u64 = 0;
    assert(words + Seq::new(0, |k: int| '.') =~= words);
    while i < dots
        invariant
            i <= dots <= 3,
            words == seq!['g', 'e', 't', 't', 'i', 'n', 'g', ' ', ' ', ' ', 'f', 'i', 'l', 'e', ' '],
            r@ == words + Seq::new(i as nat, |k: int| '.'),
        decreases dots - i,
    {
        r.append(".");
        proof {
            reveal_strlit(".");
            assert(words + Seq::new(i as nat, |k: int| '.') + seq!['.'] =~= words + Seq::new((i + 1) as nat, |k: int| '.'));
        }
        i = i + 1;
    }
    let ghost head = r@;
    let mut j: u64 = dots;
    assert(head + Seq::new(0, |k: int| ' ') =~= head);
    while j < 3
        invariant
            dots <= j <= 3,
            r@ == head + Seq::new((j - dots) as nat, |k: int| ' '),
        decreases 3 - j,
    {
        r.append(" ");
        proof {
            reveal_strlit(" ");
            assert(head + Seq::new((j - dots) as nat, |k: int| ' ') + seq![' '] =~= head + Seq::new((j + 1 - dots) as nat, |k: int| ' '));
        }
        j = j + 1;
    }
    proof {
        assert(r@ =~= progress_text(dots as nat));
    }
    r
}

/// From a fresh start, the counter after `bytes` bytes is `bytes` modulo the
/// mark cycle, and the byte numbered `bytes + 1` brings a mark exactly when that
/// number is a multiple of the bytes per mark.
pub proof fn lemma_progress_counts(bytes: nat)
    ensures
        count_after(bytes) == bytes % mark_cycle(),
        mark_after(count_after(bytes)) is Some <==> (bytes + 1) % (BYTES_PER_MARK as nat) == 0,
    decreases bytes,
{
    if bytes > 0 {
        lemma_progress_counts((bytes - 1) as nat);
        let p = count_after((bytes - 1) as nat);
        assert(next_count(p) == bytes % 1500000) by (nonlinear_arith)
            requires
                p == ((bytes - 1) as nat) % 1500000,
                bytes > 0,
                next_count(p) == if p + 1 == 1500000 { 0 } else { p + 1 },
        ;
    }
    let c = count_after(bytes);
    assert(c == bytes % 1500000);
    assert((c + 1) % 500000 == (bytes + 1) % 500000) by (nonlinear_arith)
        requires
            c == bytes % 1500000,
    ;
}


/// The path of a listed file on the server.
pub fn remote_path(file: &NFile) -> (r: String)
    ensures
        r@ == joined(file.path@, file.filename@),
{
    join_path(file.path.as_str(), file.filename.as_str())
}

/// Where a fetched file is kept locally: the upload folder and the file name,
/// written one after the other.
pub fn local_path(upload_dir: &str, filename: &str) -> (r: String)
    ensures
        r@ == upload_dir@ + filename@,
{
    let mut r = String::from_str(upload_dir);
    r.append(filename);
    r
}

/// A path with every run of slashes read as one slash, as POSIX reads paths.
pub open spec fn single_slashes(path: Seq<char>) -> Seq<char>
    decreases path.len(),
{
    if path.len() < 2 {
        path
    } else if path.last() == '/' && path[path.len() - 2] == '/' {
        single_slashes(path.drop_last())
    } else {
        single_slashes(path.drop_last()).push(path.last())
    }
}

proof fn lemma_single_slashes_extra(dir: Seq<char>, name: Seq<char>)
    requires
        dir.len() > 0,
        dir.last() == '/',
    ensures
        single_slashes(dir + seq!['/'] + name) == single_slashes(dir + name),
    decreases name.len(),
{
    let a = dir + seq!['/'] + name;
    let b = dir + name;
    if name.len() == 0 {
        assert(a.drop_last() =~= dir);
        assert(b =~= dir);
    } else {
        let shorter = name.drop_last();
        lemma_single_slashes_extra(dir, shorter);
        assert(a.drop_last() =~= dir + seq!['/'] + shorter);
        assert(b.drop_last() =~= dir + shorter);
        assert(a.last() == b.last());
        assert(a[a.len() - 2] == b[b.len() - 2]);
    }
}

/// Where the upload folder ends in a slash, the file that the upload sends and
/// the file that the fetch wrote are the same path once runs of slashes are
/// read as one: the folder, a slash and the name, against the folder and the
/// name written one after the other.
pub proof fn lemma_upload_names_fetched_file(upload_dir: Seq<char>, filename: Seq<char>)
    requires
        upload_dir.len() > 0,
        upload_dir.last() == '/',
    ensures
        single_slashes(joined(upload_dir, filename)) == single_slashes(upload_dir + filename),
{
    if upload_dir != seq!['/'] {
        lemma_single_slashes_extra(upload_dir, filename);
    }
}

/// The address to connect to: the host and the FTP port 21.
pub fn ftp_address(host: &str) -> (r: String)
    ensures
        r@ == host@ + seq![':', '2', '1'],
{
    let mut r = String::from_str(host);
    r.append(":");
    r.append("21");
    proof {
        reveal_strlit(":");
        reveal_strlit("21");
        assert(host@ + seq![':'] + seq!['2', '1'] =~= host@ + seq![':', '2', '1']);
    }
    r
}

} // verus!
