//! What a publication does to a disk, and why a stop at any point loses nothing.

use vstd::prelude::*;

use crate::calendar::{is_timestamp, timestamp_text};
use crate::paths::path_refusal;
use crate::publish::{
    backup_text, BindingView, EventView, JournalView, Phase, PublicationView, PublishAction, Stage,
    MAX_BACKUP_SUFFIX,
};
use crate::secure_fs::FileIdentity;

verus! {

/// What a publication can see and change: the file in the place, the other files
/// beside it by name, the journal, and whether the store holds the receipt.
pub struct Disk {
    pub target: Option<FileIdentity>,
    pub beside: Map<Seq<char>, FileIdentity>,
    pub journal: Option<JournalView>,
    pub receipt: bool,
}

impl Disk {
    /// Whether a file stands in the place or beside it.
    pub open spec fn holds(self, file: FileIdentity) -> bool {
        self.target == Some(file) || exists|name: Seq<char>|
            self.beside.dom().contains(name) && #[trigger] self.beside[name] == file
    }

    /// Which file has a name beside the place.
    pub open spec fn named(self, name: Seq<char>) -> Option<FileIdentity> {
        if self.beside.dom().contains(name) {
            Some(self.beside[name])
        } else {
            None
        }
    }

    /// What comes of the step that a publication asks for, and the disk afterwards,
    /// where nothing fails and nobody else changes the directory. Renaming and linking
    /// replace nothing.
    pub open spec fn performed(self, publication: PublicationView, now: i64) -> (EventView, Disk) {
        let backup = publication.journal->0.backup->0;
        match publication.stage.needs() {
            PublishAction::ReadJournal => (EventView::Journal(self.journal), self),
            PublishAction::IdentifyTarget => (EventView::Found(self.target), self),
            PublishAction::IdentifyBackup => (EventView::Found(self.named(backup)), self),
            PublishAction::ReadClock => (EventView::Clock(now), self),
            PublishAction::WriteJournal => (
                EventView::Done,
                Disk { journal: publication.journal, ..self },
            ),
            PublishAction::RenameToBackup => if self.target is None {
                (EventView::Failed("not found"@), self)
            } else if self.beside.dom().contains(backup) {
                (EventView::Exists, self)
            } else {
                (
                    EventView::Done,
                    Disk {
                        target: None,
                        beside: self.beside.insert(backup, self.target->0),
                        ..self
                    },
                )
            },
            PublishAction::LinkStaged => if self.target is Some {
                (EventView::Exists, self)
            } else {
                (EventView::Done, Disk { target: Some(publication.binding.staged), ..self })
            },
            PublishAction::CommitReceipt => (EventView::Done, Disk { receipt: true, ..self }),
            PublishAction::CleanStaging => (EventView::Done, Disk { journal: None, ..self }),
            _ => (EventView::Done, self),
        }
    }
}

/// A publication and its disk one step later.
#[verifier::opaque]
pub open spec fn step(publication: PublicationView, disk: Disk, now: i64) -> (
    PublicationView,
    Disk,
) {
    let (event, after) = disk.performed(publication, now);
    (publication.answered(event), after)
}

/// A publication and its disk some steps later.
pub open spec fn run(publication: PublicationView, disk: Disk, now: i64, steps: nat) -> (
    PublicationView,
    Disk,
)
    decreases steps,
{
    if steps == 0 {
        (publication, disk)
    } else {
        let (next, after) = step(publication, disk, now);
        run(next, after, now, (steps - 1) as nat)
    }
}

/// No step of a publication loses a file: what stood in the place or beside it still
/// stands in one or the other.
pub proof fn no_step_loses_a_file(
    publication: PublicationView,
    disk: Disk,
    now: i64,
    file: FileIdentity,
)
    requires
        disk.holds(file),
    ensures
        step(publication, disk, now).1.holds(file),
{
    reveal(step);
    let after = step(publication, disk, now).1;
    let backup = publication.journal->0.backup->0;
    if publication.stage.needs() == PublishAction::RenameToBackup && disk.target is Some
        && !disk.beside.dom().contains(backup) {
        if disk.target == Some(file) {
            assert(after.beside[backup] == file);
        } else {
            let name = choose|name: Seq<char>|
                disk.beside.dom().contains(name) && #[trigger] disk.beside[name] == file;
            assert(after.beside[name] == file);
        }
    } else if disk.target != Some(file) {
        let name = choose|name: Seq<char>|
            disk.beside.dom().contains(name) && #[trigger] disk.beside[name] == file;
        assert(after.beside[name] == file);
    }
}

/// A receipt is only committed right after the file in the place was seen to be the
/// received one, whatever else happens on the disk.
pub proof fn receipts_need_the_received_file(publication: PublicationView, event: EventView)
    requires
        publication.stage != Stage::Committing,
        publication.answered(event).stage == Stage::Committing,
    ensures
        publication.stage == Stage::FindingFinal,
        event == EventView::Found(Some(publication.binding.staged)),
{
}

/// What stood in the place is renamed only right after it was seen to be the file that
/// the journal names, and the received file never takes a place that is taken.
pub proof fn only_the_recorded_file_is_moved(publication: PublicationView, event: EventView)
    requires
        publication.stage != Stage::BackingUp,
        publication.answered(event).stage == Stage::BackingUp,
    ensures
        publication.stage == Stage::FindingTarget,
        event == EventView::Found(Some(publication.journal->0.old->0)),
{
}

/// Whether a name for what stood in the place can be made: some name is free, and all
/// names up to it are allowed.
pub open spec fn nameable(
    binding: BindingView,
    beside: Map<Seq<char>, FileIdentity>,
    stamp: Seq<char>,
) -> bool {
    exists|free: u32| #[trigger] frees(binding, beside, stamp, free)
}

/// Whether the name with this suffix is free and the names up to it are allowed.
pub open spec fn frees(
    binding: BindingView,
    beside: Map<Seq<char>, FileIdentity>,
    stamp: Seq<char>,
    free: u32,
) -> bool {
    &&& free <= MAX_BACKUP_SUFFIX
    &&& !beside.dom().contains(backup_text(binding.name, stamp, free))
    &&& forall|suffix: u32|
        suffix <= free ==> path_refusal(#[trigger] backup_text(binding.name, stamp, suffix)) is None
            && !backup_text(binding.name, stamp, suffix).contains('/')
}

/// What a publication needs of its surroundings: the file that stood in the place is
/// neither the received one nor one of those beside it, and where there is one, a name
/// for it can be made at this time.
pub open spec fn prepared_for(
    binding: BindingView,
    old: Option<FileIdentity>,
    beside: Map<Seq<char>, FileIdentity>,
    now: i64,
) -> bool {
    &&& old != Some(binding.staged)
    &&& old matches Some(file) ==> forall|name: Seq<char>|
        beside.dom().contains(name) ==> #[trigger] beside[name] != file
    &&& is_timestamp(timestamp_text(now as int))
    &&& old is Some ==> nameable(binding, beside, timestamp_text(now as int))
}

/// Whether what stood in the place is still to be moved under the name in the journal
/// or a later one: all earlier names are taken.
pub open spec fn to_be_moved(
    journal: JournalView,
    disk: Disk,
    binding: BindingView,
    old: Option<FileIdentity>,
    beside: Map<Seq<char>, FileIdentity>,
) -> bool {
    &&& disk.target == old
    &&& disk.beside == beside
    &&& nameable(binding, beside, journal.timestamp)
    &&& forall|suffix: u32|
        suffix < journal.suffix ==> beside.dom().contains(
            #[trigger] backup_text(binding.name, journal.timestamp, suffix),
        )
}

/// Whether what stood in the place, if anything, stands beside it under exactly one
/// new name and nothing else beside the place has changed.
pub open spec fn moved(
    journal: JournalView,
    disk: Disk,
    old: Option<FileIdentity>,
    beside: Map<Seq<char>, FileIdentity>,
) -> bool {
    match old {
        Some(file) => !beside.dom().contains(journal.backup->0) && disk.beside == beside.insert(
            journal.backup->0,
            file,
        ),
        None => disk.beside == beside,
    }
}

/// A disk as a publication leaves it when it stops somewhere: what stood in the place
/// is still there, or kept under the name in the journal, beside what stood beside it
/// before.
pub open spec fn consistent(
    disk: Disk,
    binding: BindingView,
    old: Option<FileIdentity>,
    beside: Map<Seq<char>, FileIdentity>,
) -> bool {
    let open_place = disk.target is None || disk.target == Some(binding.staged);
    match disk.journal {
        None => {
            &&& disk.beside == beside
            &&& old is Some ==> disk.target == old
            &&& old is None ==> open_place
        },
        Some(journal) => {
            &&& journal.refusal(binding) is None
            &&& journal.old == old
            &&& match journal.phase {
                Phase::Prepared => {
                    ||| old is Some && to_be_moved(journal, disk, binding, old, beside)
                    ||| old is Some && disk.target is None && moved(journal, disk, old, beside)
                    ||| old is None && open_place && disk.beside == beside
                },
                Phase::OldBackedUp => moved(journal, disk, old, beside) && open_place,
                _ => moved(journal, disk, old, beside) && disk.target == Some(binding.staged),
            }
        },
    }
}

/// Whether a publication has committed the receipt.
pub open spec fn past_receipt(stage: Stage) -> bool {
    stage == Stage::WritingReceipt || stage == Stage::Cleaning || stage == Stage::Published
}

/// Whether a publication is where its disk has come to.
#[verifier::opaque]
spec fn in_step(
    publication: PublicationView,
    disk: Disk,
    binding: BindingView,
    old: Option<FileIdentity>,
    beside: Map<Seq<char>, FileIdentity>,
    now: i64,
) -> bool {
    let journal = disk.journal->0;
    let known = publication.journal->0;
    let recorded = disk.journal is Some && publication.journal == disk.journal;
    let placed = disk.target == Some(binding.staged);
    let late = journal.phase == Phase::NewPublished || journal.phase == Phase::ReceiptCommitted;
    let unmoved = old is Some && journal.phase == Phase::Prepared && to_be_moved(
        journal,
        disk,
        binding,
        old,
        beside,
    );
    &&& publication.binding == binding
    &&& publication.stage != Stage::Published && publication.stage != Stage::Cleaning ==> consistent(
        disk,
        binding,
        old,
        beside,
    )
    &&& match publication.stage {
        Stage::ReadingJournal => publication.journal is None,
        Stage::FindingOld => disk.journal is None && publication.journal is None,
        Stage::ReadingClock => disk.journal is None && publication.journal is None
            && publication.old == old,
        Stage::WritingJournal => disk.journal is None && publication.journal == Some(
            JournalView::fresh(binding, old, timestamp_text(now as int)),
        ),
        Stage::Preparing => recorded,
        Stage::FindingBackup => recorded && old is Some && journal.phase == Phase::Prepared,
        Stage::FindingTarget | Stage::BackingUp => recorded && unmoved,
        Stage::WritingSuffix => disk.journal is Some && unmoved && publication.journal == Some(
            journal.next_backup(binding.name),
        ) && known.refusal(binding) is None && known.suffix == journal.suffix + 1
            && beside.dom().contains(journal.backup->0),
        Stage::SyncingBackup | Stage::ConfirmingBackup => recorded && old is Some && journal.phase
            == Phase::Prepared && disk.target is None && moved(journal, disk, old, beside),
        Stage::WritingBackedUp => disk.journal is Some && journal.phase == Phase::Prepared
            && publication.journal == Some(journal.in_phase(Phase::OldBackedUp)) && moved(
            journal,
            disk,
            old,
            beside,
        ) && (old is Some ==> disk.target is None),
        Stage::RecheckingBackup => recorded && old is Some && journal.phase != Phase::Prepared,
        Stage::Linking => recorded && journal.phase == Phase::OldBackedUp,
        Stage::FindingClaim | Stage::SyncingPublished => recorded && journal.phase
            == Phase::OldBackedUp && placed,
        Stage::WritingPublished => disk.journal is Some && journal.phase == Phase::OldBackedUp
            && publication.journal == Some(journal.in_phase(Phase::NewPublished)) && placed,
        Stage::FindingPublished
        | Stage::SyncingTarget
        | Stage::Verifying
        | Stage::FindingFinal
        | Stage::Committing => recorded && late && placed,
        Stage::WritingReceipt => disk.journal is Some && late && publication.journal == Some(
            journal.in_phase(Phase::ReceiptCommitted),
        ) && placed && disk.receipt,
        Stage::Cleaning | Stage::Published => publication.journal is Some && placed && disk.receipt
            && moved(known, disk, old, beside) && known.suffix <= MAX_BACKUP_SUFFIX,
        Stage::Stopped => false,
    }
}

/// How many steps are left at most, but for further names.
spec fn distance(stage: Stage) -> nat {
    match stage {
        Stage::ReadingJournal => 25,
        Stage::FindingOld => 24,
        Stage::ReadingClock => 23,
        Stage::WritingJournal => 22,
        Stage::Preparing => 21,
        Stage::WritingSuffix => 20,
        Stage::FindingBackup => 19,
        Stage::FindingTarget => 18,
        Stage::BackingUp => 17,
        Stage::SyncingBackup => 16,
        Stage::ConfirmingBackup => 15,
        Stage::WritingBackedUp => 14,
        Stage::RecheckingBackup => 13,
        Stage::Linking => 12,
        Stage::FindingClaim => 11,
        Stage::SyncingPublished => 10,
        Stage::WritingPublished => 9,
        Stage::FindingPublished => 8,
        Stage::SyncingTarget => 7,
        Stage::Verifying => 6,
        Stage::FindingFinal => 5,
        Stage::Committing => 4,
        Stage::WritingReceipt => 3,
        Stage::Cleaning => 2,
        Stage::Published => 0,
        Stage::Stopped => 0,
    }
}

/// How many steps are left at most; each further name takes four steps.
spec fn steps_left(publication: PublicationView) -> int {
    let tried: int = match publication.journal {
        Some(journal) => journal.suffix as int,
        None => 0,
    };
    distance(publication.stage) + 4 * (MAX_BACKUP_SUFFIX - tried)
}

/// Whether the next step leads where its disk has come to, and nearer the end.
spec fn goes_on(
    publication: PublicationView,
    disk: Disk,
    binding: BindingView,
    old: Option<FileIdentity>,
    beside: Map<Seq<char>, FileIdentity>,
    now: i64,
) -> bool {
    let (next, after) = step(publication, disk, now);
    &&& in_step(next, after, binding, old, beside, now)
    &&& 0 <= steps_left(next) < steps_left(publication)
    &&& after.receipt ==> disk.receipt || past_receipt(next.stage)
}

#[verifier::rlimit(50)]
proof fn lemma_naming_step(
    publication: PublicationView,
    disk: Disk,
    binding: BindingView,
    old: Option<FileIdentity>,
    beside: Map<Seq<char>, FileIdentity>,
    now: i64,
)
    requires
        prepared_for(binding, old, beside, now),
        in_step(publication, disk, binding, old, beside, now),
        publication.stage == Stage::BackingUp,
    ensures
        goes_on(publication, disk, binding, old, beside, now),
{
    reveal(in_step);
    reveal(step);
    let journal = disk.journal->0;
    if disk.beside.dom().contains(journal.backup->0) {
        let free = choose|free: u32| #[trigger] frees(binding, beside, journal.timestamp, free);
        assert(journal.backup->0 == backup_text(binding.name, journal.timestamp, journal.suffix));
        assert(free > journal.suffix) by {
            if free < journal.suffix {
                assert(beside.dom().contains(backup_text(binding.name, journal.timestamp, free)));
            }
        }
        let later = journal.next_backup(binding.name);
        let suffix = (journal.suffix + 1) as u32;
        assert(later.backup->0 == backup_text(binding.name, journal.timestamp, suffix));
        assert(later.refusal(binding) is None);
    }
}

#[verifier::rlimit(50)]
proof fn lemma_first_steps(
    publication: PublicationView,
    disk: Disk,
    binding: BindingView,
    old: Option<FileIdentity>,
    beside: Map<Seq<char>, FileIdentity>,
    now: i64,
)
    requires
        prepared_for(binding, old, beside, now),
        in_step(publication, disk, binding, old, beside, now),
        match publication.stage {
            Stage::ReadingJournal
            | Stage::FindingOld
            | Stage::ReadingClock
            | Stage::WritingJournal
            | Stage::Preparing => true,
            _ => false,
        },
    ensures
        goes_on(publication, disk, binding, old, beside, now),
{
    reveal(in_step);
    reveal(step);
    if old is Some && publication.stage != Stage::Preparing {
        let stamp = timestamp_text(now as int);
        let free = choose|free: u32| #[trigger] frees(binding, beside, stamp, free);
        assert(path_refusal(backup_text(binding.name, stamp, 0)) is None);
        assert(!backup_text(binding.name, stamp, 0).contains('/'));
    }
}

#[verifier::rlimit(50)]
proof fn lemma_backup_steps(
    publication: PublicationView,
    disk: Disk,
    binding: BindingView,
    old: Option<FileIdentity>,
    beside: Map<Seq<char>, FileIdentity>,
    now: i64,
)
    requires
        prepared_for(binding, old, beside, now),
        in_step(publication, disk, binding, old, beside, now),
        match publication.stage {
            Stage::FindingBackup
            | Stage::FindingTarget
            | Stage::WritingSuffix
            | Stage::SyncingBackup
            | Stage::ConfirmingBackup => true,
            _ => false,
        },
    ensures
        goes_on(publication, disk, binding, old, beside, now),
{
    reveal(in_step);
    reveal(step);
    let journal = disk.journal->0;
    if publication.stage == Stage::WritingSuffix {
        let known = publication.journal->0;
        assert forall|suffix: u32| suffix < known.suffix implies beside.dom().contains(
            #[trigger] backup_text(binding.name, known.timestamp, suffix),
        ) by {
            if suffix == journal.suffix {
                assert(journal.backup->0 == backup_text(binding.name, journal.timestamp, suffix));
            }
        }
    }
    if publication.stage == Stage::FindingBackup {
        if to_be_moved(journal, disk, binding, old, beside) {
            assert(disk.named(journal.backup->0) != old);
        } else {
            assert(disk.beside[journal.backup->0] == old->0);
        }
    }
}

#[verifier::rlimit(50)]
proof fn lemma_middle_steps(
    publication: PublicationView,
    disk: Disk,
    binding: BindingView,
    old: Option<FileIdentity>,
    beside: Map<Seq<char>, FileIdentity>,
    now: i64,
)
    requires
        prepared_for(binding, old, beside, now),
        in_step(publication, disk, binding, old, beside, now),
        match publication.stage {
            Stage::WritingBackedUp
            | Stage::RecheckingBackup
            | Stage::Linking
            | Stage::FindingClaim
            | Stage::SyncingPublished
            | Stage::WritingPublished => true,
            _ => false,
        },
    ensures
        goes_on(publication, disk, binding, old, beside, now),
{
    reveal(in_step);
    reveal(step);
}

#[verifier::rlimit(50)]
proof fn lemma_last_steps(
    publication: PublicationView,
    disk: Disk,
    binding: BindingView,
    old: Option<FileIdentity>,
    beside: Map<Seq<char>, FileIdentity>,
    now: i64,
)
    requires
        prepared_for(binding, old, beside, now),
        in_step(publication, disk, binding, old, beside, now),
        match publication.stage {
            Stage::FindingPublished
            | Stage::SyncingTarget
            | Stage::Verifying
            | Stage::FindingFinal
            | Stage::Committing
            | Stage::WritingReceipt
            | Stage::Cleaning => true,
            _ => false,
        },
    ensures
        goes_on(publication, disk, binding, old, beside, now),
{
    reveal(in_step);
    reveal(step);
}

proof fn lemma_step(
    publication: PublicationView,
    disk: Disk,
    binding: BindingView,
    old: Option<FileIdentity>,
    beside: Map<Seq<char>, FileIdentity>,
    now: i64,
)
    requires
        prepared_for(binding, old, beside, now),
        in_step(publication, disk, binding, old, beside, now),
        publication.stage != Stage::Published,
    ensures
        goes_on(publication, disk, binding, old, beside, now),
{
    match publication.stage {
        Stage::ReadingJournal
        | Stage::FindingOld
        | Stage::ReadingClock
        | Stage::WritingJournal
        | Stage::Preparing => {
            lemma_first_steps(publication, disk, binding, old, beside, now);
        },
        Stage::BackingUp => {
            lemma_naming_step(publication, disk, binding, old, beside, now);
        },
        Stage::FindingBackup
        | Stage::FindingTarget
        | Stage::WritingSuffix
        | Stage::SyncingBackup
        | Stage::ConfirmingBackup => {
            lemma_backup_steps(publication, disk, binding, old, beside, now);
        },
        Stage::WritingBackedUp
        | Stage::RecheckingBackup
        | Stage::Linking
        | Stage::FindingClaim
        | Stage::SyncingPublished
        | Stage::WritingPublished => {
            lemma_middle_steps(publication, disk, binding, old, beside, now);
        },
        Stage::Stopped => {
            reveal(in_step);
        },
        _ => {
            lemma_last_steps(publication, disk, binding, old, beside, now);
        },
    }
}

proof fn lemma_run(
    publication: PublicationView,
    disk: Disk,
    binding: BindingView,
    old: Option<FileIdentity>,
    beside: Map<Seq<char>, FileIdentity>,
    now: i64,
    steps: nat,
)
    requires
        prepared_for(binding, old, beside, now),
        in_step(publication, disk, binding, old, beside, now),
    ensures
        ({
            let (last, after) = run(publication, disk, now, steps);
            &&& in_step(last, after, binding, old, beside, now)
            &&& publication.stage == Stage::Published || steps >= steps_left(publication)
                ==> last.stage == Stage::Published
            &&& after.receipt ==> disk.receipt || past_receipt(last.stage)
        }),
    decreases steps,
{
    if publication.stage == Stage::Published {
        if steps > 0 {
            let (next, after) = step(publication, disk, now);
            assert(next == publication && after == disk) by {
                reveal(step);
            }
            lemma_run(publication, disk, binding, old, beside, now, (steps - 1) as nat);
        }
    } else if steps > 0 {
        lemma_step(publication, disk, binding, old, beside, now);
        let (next, after) = step(publication, disk, now);
        lemma_run(next, after, binding, old, beside, now, (steps - 1) as nat);
        if past_receipt(next.stage) {
            lemma_past_receipt(next, after, now, (steps - 1) as nat);
        }
    } else {
        assert(steps_left(publication) > 0) by {
            reveal(in_step);
        }
    }
}

proof fn lemma_past_receipt(publication: PublicationView, disk: Disk, now: i64, steps: nat)
    requires
        past_receipt(publication.stage),
    ensures
        past_receipt(run(publication, disk, now, steps).0.stage),
    decreases steps,
{
    if steps > 0 {
        let (next, after) = step(publication, disk, now);
        assert(past_receipt(next.stage)) by {
            reveal(step);
        }
        lemma_past_receipt(next, after, now, (steps - 1) as nat);
    }
}

/// More steps than any publication takes.
pub open spec fn enough_steps() -> nat {
    (26 + 4 * MAX_BACKUP_SUFFIX) as nat
}

/// Wherever a publication stops, what stood in the place is intact, there or beside it,
/// and a receipt was committed only if it came that far. Unless it did, the disk is one
/// from which it can be started again.
pub proof fn stops_leave_consistent_disks(
    disk: Disk,
    binding: BindingView,
    old: Option<FileIdentity>,
    beside: Map<Seq<char>, FileIdentity>,
    now: i64,
    steps: nat,
)
    requires
        prepared_for(binding, old, beside, now),
        consistent(disk, binding, old, beside),
    ensures
        ({
            let (last, after) = run(PublicationView::started(binding), disk, now, steps);
            &&& old matches Some(file) ==> after.holds(file)
            &&& after.receipt ==> disk.receipt || past_receipt(last.stage)
            &&& !past_receipt(last.stage) ==> consistent(after, binding, old, beside)
            &&& past_receipt(last.stage) ==> after.receipt && after.target == Some(binding.staged)
        }),
{
    reveal(in_step);
    lemma_run(PublicationView::started(binding), disk, binding, old, beside, now, steps);
    let (last, after) = run(PublicationView::started(binding), disk, now, steps);
    if old is Some && after.target != old {
        let name = match after.journal {
            Some(journal) => if past_receipt(last.stage) {
                last.journal->0.backup->0
            } else {
                journal.backup->0
            },
            None => last.journal->0.backup->0,
        };
        assert(after.beside.dom().contains(name));
        assert(after.beside[name] == old->0);
    }
}

/// From every such disk a publication completes: the received file is in the place, the
/// receipt is committed, and what stood there is kept beside it under exactly one name,
/// which was free before. Nothing else beside the place has changed.
pub proof fn publications_complete(
    disk: Disk,
    binding: BindingView,
    old: Option<FileIdentity>,
    beside: Map<Seq<char>, FileIdentity>,
    now: i64,
)
    requires
        prepared_for(binding, old, beside, now),
        consistent(disk, binding, old, beside),
    ensures
        ({
            let (last, after) = run(PublicationView::started(binding), disk, now, enough_steps());
            let name = last.journal->0.backup->0;
            &&& last.stage == Stage::Published
            &&& after.target == Some(binding.staged)
            &&& after.receipt
            &&& match old {
                Some(file) => !beside.dom().contains(name) && after.beside == beside.insert(
                    name,
                    file,
                ),
                None => after.beside == beside,
            }
        }),
{
    reveal(in_step);
    lemma_run(
        PublicationView::started(binding),
        disk,
        binding,
        old,
        beside,
        now,
        enough_steps(),
    );
}

/// A publication that stops anywhere before its receipt and is started again, at whatever
/// time, completes as if it had never stopped: exactly one backup holds what stood in the
/// place, and it is not lost in between.
pub proof fn stopped_publications_complete(
    disk: Disk,
    binding: BindingView,
    old: Option<FileIdentity>,
    now: i64,
    steps: nat,
    later: i64,
)
    requires
        disk.journal is None,
        !disk.receipt,
        disk.target == old,
        prepared_for(binding, old, disk.beside, now),
        prepared_for(binding, old, disk.beside, later),
    ensures
        ({
            let started = PublicationView::started(binding);
            let (first, between) = run(started, disk, now, steps);
            let (last, after) = run(started, between, later, enough_steps());
            let name = last.journal->0.backup->0;
            &&& old matches Some(file) ==> between.holds(file)
            &&& between.receipt <==> past_receipt(first.stage)
            &&& !past_receipt(first.stage) ==> {
                &&& last.stage == Stage::Published
                &&& after.target == Some(binding.staged)
                &&& after.receipt
                &&& match old {
                    Some(file) => !disk.beside.dom().contains(name) && after.beside
                        == disk.beside.insert(name, file),
                    None => after.beside == disk.beside,
                }
            }
        }),
{
    let started = PublicationView::started(binding);
    stops_leave_consistent_disks(disk, binding, old, disk.beside, now, steps);
    let (first, between) = run(started, disk, now, steps);
    if !past_receipt(first.stage) {
        publications_complete(between, binding, old, disk.beside, later);
    }
}

} // verus!
