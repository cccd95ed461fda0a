use vstd::prelude::*;
use vstd::arithmetic::div_mod::{lemma_add_mod_noop, lemma_mod_self_0, lemma_small_mod};

use crate::sql::models::{File, NFile};
use crate::text::{prefix_chars, take_chars};

verus! {

/// The slot after `slot`: slots run from 1 up to the thread limit, then start
/// again at 0.
pub open spec fn next_slot(slot: int, max_threads: int) -> int {
    if slot + 1 > max_threads {
        0
    } else {
        slot + 1
    }
}

/// The slot after `jobs` more uploads.
pub open spec fn slot_after(slot: int, max_threads: int, jobs: nat) -> int
    decreases jobs,
{
    if jobs == 0 {
        slot
    } else {
        next_slot(slot_after(slot, max_threads, (jobs - 1) as nat), max_threads)
    }
}

/// Slots go round: after `jobs` uploads from a slot in range, the slot is
/// the start moved on by `jobs` places modulo the number of slots.
pub proof fn lemma_slots_cycle(slot: int, max_threads: int, jobs: nat)
    requires
        0 <= slot <= max_threads,
    ensures
        slot_after(slot, max_threads, jobs) == (slot + jobs) % (max_threads + 1),
        0 <= slot_after(slot, max_threads, jobs) <= max_threads,
    decreases jobs,
{
    let m = max_threads + 1;
    if jobs == 0 {
        lemma_small_mod(slot as nat, m as nat);
    } else {
        lemma_slots_cycle(slot, max_threads, (jobs - 1) as nat);
        let x = slot + jobs - 1;
        let r = x % m;
        lemma_add_mod_noop(x, 1, m);
        if m == 1 {
            assert(1int % 1 == 0) by (nonlinear_arith);
            assert((r + 0) % m == r % m);
            lemma_small_mod(r as nat, m as nat);
        } else {
            lemma_small_mod(1, m as nat);
            if r + 1 < m {
                lemma_small_mod((r + 1) as nat, m as nat);
            } else {
                lemma_mod_self_0(m);
            }
        }
    }
}

/// Every `max_threads + 1` uploads the slot is back where it was.
pub proof fn lemma_slots_return(slot: int, max_threads: int)
    requires
        0 <= slot <= max_threads,
    ensures
        slot_after(slot, max_threads, (max_threads + 1) as nat) == slot,
{
    let m = max_threads + 1;
    lemma_slots_cycle(slot, max_threads, m as nat);
    lemma_add_mod_noop(slot, m, m);
    lemma_mod_self_0(m);
    lemma_small_mod(slot as nat, m as nat);
    assert((slot % m + 0) % m == slot % m);
}

/// An upload to start: the file, whether its record exists already (so that it
/// is updated rather than inserted), the id its record has, and the slot whose
/// status line it writes to.
pub struct UploadJob {
    pub file: NFile,
    pub update: bool,
    pub id: i32,
    pub slot: i32,
}

/// Decides, file by file, which files of the listing are uploaded, and with
/// which record id and status slot.
pub struct Scheduler {
    max_threads: i32,
    ignore_synced: bool,
    slot: i32,
    last_id: i32,
}

impl Scheduler {
    #[verifier::type_invariant]
    spec fn slot_in_range(self) -> bool {
        &&& 0 <= self.slot <= self.max_threads
        &&& 0 <= self.last_id
    }

    /// The most uploads that run at once.
    pub closed spec fn max_threads(self) -> int {
        self.max_threads as int
    }

    /// Whether files with an uploaded record are uploaded again.
    pub closed spec fn ignore_synced(self) -> bool {
        self.ignore_synced
    }

    /// The slot of the last upload started, 0 before the first.
    pub closed spec fn slot(self) -> int {
        self.slot as int
    }

    /// How many files of the listing were looked at.
    pub closed spec fn last_id(self) -> int {
        self.last_id as int
    }

    /// A scheduler for at most `max_threads` uploads at once; none where the
    /// limit is negative, since no thread count can be compared with it.
    pub fn new(max_threads: i32, ignore_synced: bool) -> (s: Option<Self>)
        ensures
            s is None <==> max_threads < 0,
            s matches Some(s) ==> s.max_threads() == max_threads && s.ignore_synced()
                == ignore_synced && s.slot() == 0 && s.last_id() == 0,
    {
        if max_threads < 0 {
            None
        } else {
            Some(Scheduler { max_threads, ignore_synced, slot: 0, last_id: 0 })
        }
    }

    /// How many files of the listing were looked at.
    pub fn files_seen(&self) -> (n: i32)
        ensures
            n == self.last_id(),
    {
        self.last_id
    }

    /// Whether another upload may start while `active` ones run.
    pub fn has_room(&self, active: usize) -> (r: bool)
        ensures
            r == (active < self.max_threads()),
    {
        proof {
            use_type_invariant(self);
        }
        (active as u64) < (self.max_threads as u64)
    }

    /// Looks at the next file of the listing, with the record stored for it if
    /// any. The file is uploaded as new, under the number of files looked at so
    /// far, where no record was found or records are ignored; it is uploaded as
    /// an update of its record where the record was not uploaded yet; it is left
    /// alone otherwise. Each upload takes the next slot.
    pub fn plan(&mut self, file: NFile, record: Option<File>) -> (job: Option<UploadJob>)
        requires
            old(self).last_id() < i32::MAX,
        ensures
            final(self).max_threads() == old(self).max_threads(),
            final(self).ignore_synced() == old(self).ignore_synced(),
            final(self).last_id() == old(self).last_id() + 1,
            0 <= final(self).slot() <= final(self).max_threads(),
            (record is None || old(self).ignore_synced()) ==> job == Some(
                UploadJob {
                    file: file,
                    update: false,
                    id: (old(self).last_id() + 1) as i32,
                    slot: next_slot(old(self).slot(), old(self).max_threads()) as i32,
                },
            ),
            (record matches Some(f) && !old(self).ignore_synced() && !f.synced) ==> job == Some(
                UploadJob {
                    file: file,
                    update: true,
                    id: record->0.id,
                    slot: next_slot(old(self).slot(), old(self).max_threads()) as i32,
                },
            ),
            (record matches Some(f) && !old(self).ignore_synced() && f.synced) ==> job is None,
            job is Some ==> final(self).slot() == next_slot(old(self).slot(), old(self).max_threads()),
            job is None ==> final(self).slot() == old(self).slot(),
    {
        proof {
            use_type_invariant(&*self);
        }
        self.last_id = self.last_id + 1;
        let id = self.last_id;
        match record {
            Some(f) if !self.ignore_synced => {
                if f.synced {
                    None
                } else {
                    let slot = self.advance();
                    Some(UploadJob { file, update: true, id: f.id, slot })
                }
            },
            _ => {
                let slot = self.advance();
                Some(UploadJob { file, update: false, id, slot })
            },
        }
    }

    fn advance(&mut self) -> (slot: i32)
        ensures
            final(self).max_threads() == old(self).max_threads(),
            final(self).ignore_synced() == old(self).ignore_synced(),
            final(self).last_id() == old(self).last_id(),
            slot == final(self).slot(),
            slot == next_slot(old(self).slot(), old(self).max_threads()),
    {
        proof {
            use_type_invariant(&*self);
        }
        if self.slot >= self.max_threads {
            self.slot = 0;
        } else {
            self.slot = self.slot + 1;
        }
        self.slot
    }
}

/// The status line of an upload in `slot`, counted upwards from the cursor:
/// one past the thread limit, less the slot.
pub open spec fn status_line_of(max_threads: int, slot: int) -> int {
    max_threads + 1 - slot
}

/// The status line of an upload in `slot`. The caller stops before asking
/// where that is no line number.
pub fn status_line(max_threads: i32, slot: i32) -> (r: u16)
    requires
        0 <= status_line_of(max_threads as int, slot as int) <= u16::MAX,
    ensures
        r == status_line_of(max_threads as int, slot as int),
        r + slot == max_threads + 1,
{
    let line: i64 = max_threads as i64 + 1 - slot as i64;
    line as u16
}

/// The status line of an upload in a slot that a scheduler gave lies between
/// 1 and one past the thread limit, where that limit leaves room for line numbers.
pub proof fn lemma_status_line_in_range(max_threads: int, slot: int)
    requires
        0 <= slot <= max_threads,
        max_threads < u16::MAX,
    ensures
        1 <= status_line_of(max_threads, slot) <= max_threads + 1,
        status_line_of(max_threads, slot) <= u16::MAX,
{
}

/// Each slot has its own status line: the line and the slot add up to one past
/// the thread limit, so that slots 0 to the limit take the lines from one past
/// the limit down to 1, and two slots never share a line.
pub proof fn lemma_status_lines_distinct(max_threads: int, slot: int, other: int)
    ensures
        status_line_of(max_threads, slot) + slot == max_threads + 1,
        slot != other ==> status_line_of(max_threads, slot) != status_line_of(max_threads, other),
        status_line_of(max_threads, slot) - status_line_of(max_threads, other) == other - slot,
{
}

/// How many characters of a file name the status lines show.
pub const NAME_WIDTH: usize = 30;

/// The part of a file name the status lines show: its first thirty characters.
pub fn display_name(filename: &str) -> (r: String)
    ensures
        r@ == prefix_chars(filename@, NAME_WIDTH as nat),
        r@.len() == if filename@.len() > 30 { 30 } else { filename@.len() },
        r@ == filename@.take(r@.len() as int),
{
    take_chars(filename, NAME_WIDTH)
}

/// The steps of an upload.
#[derive(Debug, Clone, Copy, PartialEq, Eq, Structural)]
pub enum UploadStep {
    /// Store a record for the new file.
    Register,
    /// Fetch the file from the server into the upload folder.
    Fetch,
    /// Send the file to the upload service.
    Send,
    /// Mark the record as uploaded.
    MarkSynced,
    /// Delete the fetched copy.
    RemoveLocal,
    /// Report that the upload failed.
    ReportFailure,
    /// Nothing is left to do.
    Finished,
}

/// The first step of an upload: a new file is registered first, a known one
/// is fetched at once.
pub open spec fn first_step_of(update: bool) -> UploadStep {
    if update {
        UploadStep::Fetch
    } else {
        UploadStep::Register
    }
}

/// The step after `step`, where `sent` says whether the upload service
/// confirmed the upload.
pub open spec fn step_after_of(step: UploadStep, sent: bool) -> UploadStep {
    match step {
        UploadStep::Register => UploadStep::Fetch,
        UploadStep::Fetch => UploadStep::Send,
        UploadStep::Send => if sent {
            UploadStep::MarkSynced
        } else {
            UploadStep::ReportFailure
        },
        UploadStep::MarkSynced => UploadStep::RemoveLocal,
        UploadStep::RemoveLocal => UploadStep::Finished,
        UploadStep::ReportFailure => UploadStep::Finished,
        UploadStep::Finished => UploadStep::Finished,
    }
}

/// The steps of an upload, `count` of them from `step`.
pub open spec fn upload_trace(step: UploadStep, sent: bool, count: nat) -> Seq<UploadStep>
    decreases count,
{
    if count == 0 {
        Seq::empty()
    } else {
        seq![step] + upload_trace(step_after_of(step, sent), sent, (count - 1) as nat)
    }
}

/// The whole course of an upload: a new file is registered first; the file is
/// fetched and sent; only where the service confirmed is the record marked as
/// uploaded and the fetched copy deleted; otherwise the failure is reported;
/// then the upload is finished and stays so.
pub open spec fn upload_course(update: bool, sent: bool) -> Seq<UploadStep> {
    (if update {
        Seq::empty()
    } else {
        seq![UploadStep::Register]
    }) + seq![UploadStep::Fetch, UploadStep::Send] + (if sent {
        seq![UploadStep::MarkSynced, UploadStep::RemoveLocal]
    } else {
        seq![UploadStep::ReportFailure]
    }) + seq![UploadStep::Finished]
}

/// Going step by step from the first step gives the course of an upload, and
/// it stays finished.
pub proof fn lemma_upload_course(update: bool, sent: bool)
    ensures
        upload_trace(first_step_of(update), sent, upload_course(update, sent).len())
            == upload_course(update, sent),
        step_after_of(UploadStep::Finished, sent) == UploadStep::Finished,
        upload_course(update, sent).contains(UploadStep::MarkSynced) <==> sent,
        upload_course(update, sent).contains(UploadStep::RemoveLocal) <==> sent,
{
    reveal_with_fuel(upload_trace, 7);
    let c = upload_course(update, sent);
    assert(upload_trace(first_step_of(update), sent, c.len()) =~= c);
    if !sent {
        assert(!c.contains(UploadStep::MarkSynced)) by {
            if c.contains(UploadStep::MarkSynced) {
                let i = choose|i: int| 0 <= i < c.len() && c[i] == UploadStep::MarkSynced;
            }
        }
        assert(!c.contains(UploadStep::RemoveLocal)) by {
            if c.contains(UploadStep::RemoveLocal) {
                let i = choose|i: int| 0 <= i < c.len() && c[i] == UploadStep::RemoveLocal;
            }
        }
    } else {
        let k: int = if update { 2 } else { 3 };
        assert(c[k] == UploadStep::MarkSynced);
        assert(c[k + 1] == UploadStep::RemoveLocal);
    }
}

/// The first step of an upload.
pub fn first_step(update: bool) -> (s: UploadStep)
    ensures
        s == first_step_of(update),
{
    if update {
        UploadStep::Fetch
    } else {
        UploadStep::Register
    }
}

/// The step of an upload after `step`.
pub fn step_after(step: UploadStep, sent: bool) -> (s: UploadStep)
    ensures
        s == step_after_of(step, sent),
{
    match step {
        UploadStep::Register => UploadStep::Fetch,
        UploadStep::Fetch => UploadStep::Send,
        UploadStep::Send => if sent {
            UploadStep::MarkSynced
        } else {
            UploadStep::ReportFailure
        },
        UploadStep::MarkSynced => UploadStep::RemoveLocal,
        UploadStep::RemoveLocal => UploadStep::Finished,
        UploadStep::ReportFailure => UploadStep::Finished,
        UploadStep::Finished => UploadStep::Finished,
    }
}

} // verus!
