//! Putting a received file in its place. What stood there before is kept under
//! another name, and every step can be repeated after a stop.

use vstd::prelude::*;

use crate::calendar::{is_timestamp, looks_like_timestamp, timestamp, timestamp_text};
use crate::error::{decided, failure, Error, Result};
use crate::manifest::{FileManifest, ManifestView};
use crate::paths::{path_refusal, validate_relative_path};
use crate::secure_fs::{split_parent, FileIdentity};
use crate::task_record::{DetailsView, TaskDetails, TaskRecord, TaskView};
use crate::text::{decimal, decimal_text, from_chars, pieces, same_text, to_chars, views};

verus! {

/// The version of journals.
pub const JOURNAL_VERSION: u32 = 1;

/// How many names are tried for what stood in the place.
pub const MAX_BACKUP_SUFFIX: u32 = 10000;

/// How far a publication has come.
#[derive(Clone, Copy, Debug, PartialEq, Eq, Structural)]
pub enum Phase {
    Prepared,
    OldBackedUp,
    NewPublished,
    ReceiptCommitted,
}

/// The position of the last dot, or the length where there is none.
pub open spec fn last_dot(name: Seq<char>) -> int
    decreases name.len(),
{
    if name.len() == 0 {
        0
    } else if name.last() == '.' {
        name.len() - 1
    } else {
        let before = last_dot(name.drop_last());
        if before == name.len() - 1 {
            name.len() as int
        } else {
            before
        }
    }
}

/// A name in front of its extension. A dot at the start begins no extension.
pub open spec fn name_stem(name: Seq<char>) -> Seq<char> {
    let dot = last_dot(name);
    if 0 < dot < name.len() {
        name.take(dot)
    } else {
        name
    }
}

/// The extension of a name with its dot; nothing where there is none.
pub open spec fn name_extension(name: Seq<char>) -> Seq<char> {
    let dot = last_dot(name);
    if 0 < dot < name.len() {
        name.skip(dot)
    } else {
        Seq::empty()
    }
}

/// What a replaced file is called from now on.
pub open spec fn backup_text(name: Seq<char>, stamp: Seq<char>, suffix: u32) -> Seq<char> {
    name_stem(name) + "+"@ + stamp + (if suffix == 0 {
        Seq::empty()
    } else {
        "-"@ + decimal(suffix as nat)
    }) + name_extension(name)
}

fn find_last_dot(chars: &Vec<char>) -> (at: usize)
    ensures
        at == last_dot(chars@),
        at <= chars@.len(),
{
    let mut found: usize = 0;
    let mut i: usize = 0;
    assert(chars@.take(0) =~= Seq::<char>::empty());
    while i < chars.len()
        invariant
            i <= chars@.len(),
            found <= i,
            found == last_dot(chars@.take(i as int)),
        decreases chars@.len() - i,
    {
        assert(chars@.take(i + 1).drop_last() =~= chars@.take(i as int));
        assert(chars@.take(i + 1).last() == chars@[i as int]);
        if chars[i] == '.' {
            found = i;
        } else if found == i {
            found = i + 1;
        }
        i = i + 1;
    }
    assert(chars@.take(i as int) =~= chars@);
    found
}

/// The name under which a replaced file is kept.
pub fn backup_name(name: &str, stamp: &str, suffix: u32) -> (result: Result<String>)
    ensures
        decided(result, path_refusal(backup_text(name@, stamp@, suffix))),
        result matches Ok(backup) ==> backup@ == backup_text(name@, stamp@, suffix),
{
    let chars = to_chars(name);
    let dot: usize = find_last_dot(&chars);
    let cut: usize = if dot > 0 {
        dot
    } else {
        chars.len()
    };
    let mut backup = from_chars(&chars, 0, cut);
    assert(backup@ =~= name_stem(name@));
    backup.append("+");
    backup.append(stamp);
    if suffix != 0 {
        backup.append("-");
        backup.append(&decimal_text(suffix as u64));
    }
    let extension = from_chars(&chars, cut, chars.len());
    assert(extension@ =~= name_extension(name@));
    backup.append(&extension);
    assert(backup@ =~= backup_text(name@, stamp@, suffix));
    validate_relative_path(&backup)?;
    Ok(backup)
}

/// What a publication belongs to, as mathematical values.
pub struct BindingView {
    pub task: Seq<char>,
    pub peer: Seq<char>,
    pub relative: Seq<char>,
    pub root_hash: Seq<char>,
    pub name: Seq<char>,
    pub staged: FileIdentity,
    pub parent: FileIdentity,
}

/// What a publication belongs to: the task, the content, and where both files are.
#[derive(Debug)]
pub struct Binding {
    pub task: String,
    pub peer: String,
    pub relative: String,
    pub root_hash: String,
    pub name: String,
    pub staged: FileIdentity,
    pub parent: FileIdentity,
}

impl View for Binding {
    type V = BindingView;

    open spec fn view(&self) -> BindingView {
        BindingView {
            task: self.task@,
            peer: self.peer@,
            relative: self.relative@,
            root_hash: self.root_hash@,
            name: self.name@,
            staged: self.staged,
            parent: self.parent,
        }
    }
}

/// A journal, as mathematical values.
pub struct JournalView {
    pub version: u32,
    pub task: Seq<char>,
    pub peer: Seq<char>,
    pub relative: Seq<char>,
    pub root_hash: Seq<char>,
    pub parent: FileIdentity,
    pub staged: FileIdentity,
    pub old: Option<FileIdentity>,
    pub backup: Option<Seq<char>>,
    pub timestamp: Seq<char>,
    pub suffix: u32,
    pub phase: Phase,
}

/// What a publication has done so far, as it is kept beside the received file.
#[derive(Debug)]
pub struct Journal {
    pub version: u32,
    pub task: String,
    pub peer: String,
    pub relative: String,
    pub root_hash: String,
    pub parent: FileIdentity,
    pub staged: FileIdentity,
    pub old: Option<FileIdentity>,
    pub backup: Option<String>,
    pub timestamp: String,
    pub suffix: u32,
    pub phase: Phase,
}

/// A text that may be missing, as mathematical values.
pub open spec fn text_view(text: Option<String>) -> Option<Seq<char>> {
    match text {
        Some(found) => Some(found@),
        None => None,
    }
}

impl View for Journal {
    type V = JournalView;

    open spec fn view(&self) -> JournalView {
        JournalView {
            version: self.version,
            task: self.task@,
            peer: self.peer@,
            relative: self.relative@,
            root_hash: self.root_hash@,
            parent: self.parent,
            staged: self.staged,
            old: self.old,
            backup: text_view(self.backup),
            timestamp: self.timestamp@,
            suffix: self.suffix,
            phase: self.phase,
        }
    }
}

impl JournalView {
    /// Whether a journal has the given binding and holds nothing impossible.
    pub open spec fn fits(self, binding: BindingView) -> bool {
        &&& self.version == JOURNAL_VERSION
        &&& self.task == binding.task
        &&& self.peer == binding.peer
        &&& self.relative == binding.relative
        &&& self.root_hash == binding.root_hash
        &&& self.staged == binding.staged
        &&& self.parent == binding.parent
        &&& self.old is Some == self.backup is Some
        &&& self.suffix <= MAX_BACKUP_SUFFIX
        &&& is_timestamp(self.timestamp)
    }

    /// Why a journal that was found cannot be continued.
    pub open spec fn refusal(self, binding: BindingView) -> Option<Seq<char>> {
        let expected = backup_text(binding.name, self.timestamp, self.suffix);
        if !self.fits(binding) {
            Some("发布 journal 身份与目标目录不符"@)
        } else {
            match self.backup {
                None => None,
                Some(backup) => if path_refusal(backup) is Some {
                    path_refusal(backup)
                } else if backup.contains('/') {
                    Some("备份名称非法"@)
                } else if path_refusal(expected) is Some {
                    path_refusal(expected)
                } else if backup != expected {
                    Some("备份名称非法"@)
                } else {
                    None
                },
            }
        }
    }

    /// The journal that a publication starts with.
    pub open spec fn fresh(
        binding: BindingView,
        old: Option<FileIdentity>,
        stamp: Seq<char>,
    ) -> JournalView {
        JournalView {
            version: JOURNAL_VERSION,
            task: binding.task,
            peer: binding.peer,
            relative: binding.relative,
            root_hash: binding.root_hash,
            parent: binding.parent,
            staged: binding.staged,
            old,
            backup: if old is Some {
                Some(backup_text(binding.name, stamp, 0))
            } else {
                None
            },
            timestamp: stamp,
            suffix: 0,
            phase: Phase::Prepared,
        }
    }

    /// The journal with another phase.
    pub open spec fn in_phase(self, phase: Phase) -> JournalView {
        JournalView { phase, ..self }
    }

    /// The journal with the next name for what stood in the place.
    pub open spec fn next_backup(self, name: Seq<char>) -> JournalView {
        JournalView {
            suffix: (self.suffix + 1) as u32,
            backup: Some(backup_text(name, self.timestamp, (self.suffix + 1) as u32)),
            ..self
        }
    }
}

fn holds_slash(text: &str) -> (found: bool)
    ensures
        found == text@.contains('/'),
{
    let chars = to_chars(text);
    let mut i: usize = 0;
    while i < chars.len()
        invariant
            i <= chars@.len(),
            chars@ == text@,
            forall|k: int| 0 <= k < i ==> chars@[k] != '/',
        decreases chars@.len() - i,
    {
        if chars[i] == '/' {
            assert(text@[i as int] == '/');
            return true;
        }
        i = i + 1;
    }
    false
}

impl Journal {
    /// Whether this journal can be continued.
    pub fn check(&self, binding: &Binding) -> (result: Result<()>)
        ensures
            decided(result, self@.refusal(binding@)),
    {
        if self.version != JOURNAL_VERSION || !same_text(&self.task, &binding.task) || !same_text(
            &self.peer,
            &binding.peer,
        ) || !same_text(&self.relative, &binding.relative) || !same_text(
            &self.root_hash,
            &binding.root_hash,
        ) || self.staged != binding.staged || self.parent != binding.parent || self.old.is_some()
            != self.backup.is_some() || self.suffix > MAX_BACKUP_SUFFIX || !looks_like_timestamp(
            &self.timestamp,
        ) {
            return Err(failure("发布 journal 身份与目标目录不符"));
        }
        match &self.backup {
            None => {},
            Some(backup) => {
                validate_relative_path(backup)?;
                if holds_slash(backup) {
                    return Err(failure("备份名称非法"));
                }
                let expected = backup_name(&binding.name, &self.timestamp, self.suffix)?;
                if !same_text(backup, &expected) {
                    return Err(failure("备份名称非法"));
                }
            },
        }
        Ok(())
    }

    /// The journal that a publication starts with.
    pub fn begin(
        binding: &Binding,
        old: Option<FileIdentity>,
        now: i64,
    ) -> (result: Result<Journal>)
        ensures
            decided(
                result,
                if old is Some {
                    path_refusal(backup_text(binding@.name, timestamp_text(now as int), 0))
                } else {
                    None
                },
            ),
            result matches Ok(journal) ==> journal@ == JournalView::fresh(
                binding@,
                old,
                timestamp_text(now as int),
            ),
    {
        let stamp = timestamp(now);
        let backup = if old.is_some() {
            Some(backup_name(&binding.name, &stamp, 0)?)
        } else {
            None
        };
        Ok(
            Journal {
                version: JOURNAL_VERSION,
                task: binding.task.clone(),
                peer: binding.peer.clone(),
                relative: binding.relative.clone(),
                root_hash: binding.root_hash.clone(),
                parent: binding.parent,
                staged: binding.staged,
                old,
                backup,
                timestamp: stamp,
                suffix: 0,
                phase: Phase::Prepared,
            },
        )
    }
}

/// Where a publication stands between two steps on the disk or in the store.
#[derive(Clone, Copy, Debug, PartialEq, Eq, Structural)]
pub enum Stage {
    ReadingJournal,
    FindingOld,
    ReadingClock,
    WritingJournal,
    Preparing,
    FindingBackup,
    FindingTarget,
    BackingUp,
    WritingSuffix,
    SyncingBackup,
    ConfirmingBackup,
    WritingBackedUp,
    RecheckingBackup,
    Linking,
    FindingClaim,
    SyncingPublished,
    WritingPublished,
    FindingPublished,
    SyncingTarget,
    Verifying,
    FindingFinal,
    Committing,
    WritingReceipt,
    Cleaning,
    Published,
    Stopped,
}

/// A step that is to be done.
#[derive(Clone, Copy, Debug, PartialEq, Eq, Structural)]
pub enum PublishAction {
    ReadJournal,
    IdentifyTarget,
    IdentifyBackup,
    ReadClock,
    WriteJournal,
    PrepareStore,
    RenameToBackup,
    SyncParent,
    LinkStaged,
    SyncTarget,
    VerifyTarget,
    CommitReceipt,
    CleanStaging,
    Nothing,
}

/// What came of a step.
#[derive(Debug)]
pub enum PublishEvent {
    Done,
    Exists,
    Found(Option<FileIdentity>),
    Journal(Option<Journal>),
    Clock(i64),
    Failed(Error),
}

impl Stage {
    /// The step that this stage waits for.
    pub open spec fn needs(self) -> PublishAction {
        match self {
            Stage::ReadingJournal => PublishAction::ReadJournal,
            Stage::FindingOld => PublishAction::IdentifyTarget,
            Stage::ReadingClock => PublishAction::ReadClock,
            Stage::WritingJournal => PublishAction::WriteJournal,
            Stage::Preparing => PublishAction::PrepareStore,
            Stage::FindingBackup => PublishAction::IdentifyBackup,
            Stage::FindingTarget => PublishAction::IdentifyTarget,
            Stage::BackingUp => PublishAction::RenameToBackup,
            Stage::WritingSuffix => PublishAction::WriteJournal,
            Stage::SyncingBackup => PublishAction::SyncParent,
            Stage::ConfirmingBackup => PublishAction::IdentifyBackup,
            Stage::WritingBackedUp => PublishAction::WriteJournal,
            Stage::RecheckingBackup => PublishAction::IdentifyBackup,
            Stage::Linking => PublishAction::LinkStaged,
            Stage::FindingClaim => PublishAction::IdentifyTarget,
            Stage::SyncingPublished => PublishAction::SyncParent,
            Stage::WritingPublished => PublishAction::WriteJournal,
            Stage::FindingPublished => PublishAction::IdentifyTarget,
            Stage::SyncingTarget => PublishAction::SyncTarget,
            Stage::Verifying => PublishAction::VerifyTarget,
            Stage::FindingFinal => PublishAction::IdentifyTarget,
            Stage::Committing => PublishAction::CommitReceipt,
            Stage::WritingReceipt => PublishAction::WriteJournal,
            Stage::Cleaning => PublishAction::CleanStaging,
            Stage::Published => PublishAction::Nothing,
            Stage::Stopped => PublishAction::Nothing,
        }
    }
}

/// What came of a step, as mathematical values.
pub enum EventView {
    Done,
    Exists,
    Found(Option<FileIdentity>),
    Journal(Option<JournalView>),
    Clock(i64),
    Failed(Seq<char>),
}

impl PublishEvent {
    /// What came of a step, as mathematical values.
    pub open spec fn event(self) -> EventView {
        match self {
            PublishEvent::Done => EventView::Done,
            PublishEvent::Exists => EventView::Exists,
            PublishEvent::Found(identity) => EventView::Found(identity),
            PublishEvent::Journal(None) => EventView::Journal(None),
            PublishEvent::Journal(Some(journal)) => EventView::Journal(Some(journal@)),
            PublishEvent::Clock(now) => EventView::Clock(now),
            PublishEvent::Failed(error) => EventView::Failed(error.message()),
        }
    }
}

/// A publication, as mathematical values.
pub struct PublicationView {
    pub binding: BindingView,
    pub stage: Stage,
    pub old: Option<FileIdentity>,
    pub journal: Option<JournalView>,
    pub problem: Option<Seq<char>>,
}

impl PublicationView {
    /// A publication that has done nothing yet.
    pub open spec fn started(binding: BindingView) -> PublicationView {
        PublicationView {
            binding,
            stage: Stage::ReadingJournal,
            old: None,
            journal: None,
            problem: None,
        }
    }

    /// The publication in another stage.
    pub open spec fn at(self, stage: Stage) -> PublicationView {
        PublicationView { stage, ..self }
    }

    /// The publication, stopped for a reason.
    pub open spec fn stopped(self, problem: Seq<char>) -> PublicationView {
        PublicationView { stage: Stage::Stopped, problem: Some(problem), ..self }
    }

    /// The publication with a changed journal, in another stage.
    pub open spec fn with_journal(self, journal: JournalView, stage: Stage) -> PublicationView {
        PublicationView { journal: Some(journal), stage, ..self }
    }

    /// What follows once the store knows of the publication.
    pub open spec fn after_preparing(self) -> PublicationView {
        let journal = self.journal->0;
        if journal.phase != Phase::Prepared {
            self.after_backup()
        } else if journal.old is Some {
            self.at(Stage::FindingBackup)
        } else {
            self.with_journal(journal.in_phase(Phase::OldBackedUp), Stage::WritingBackedUp)
        }
    }

    /// What follows once what stood in the place is out of the way.
    pub open spec fn after_backup(self) -> PublicationView {
        if self.journal->0.old is Some {
            self.at(Stage::RecheckingBackup)
        } else {
            self.after_recheck()
        }
    }

    /// What follows once what stood in the place is known to be kept.
    pub open spec fn after_recheck(self) -> PublicationView {
        if self.journal->0.phase == Phase::OldBackedUp {
            self.at(Stage::Linking)
        } else {
            self.at(Stage::FindingPublished)
        }
    }

    /// The next stage where the file that stands there has to be the given one.
    pub open spec fn expecting(
        self,
        found: Option<FileIdentity>,
        wanted: FileIdentity,
        next: PublicationView,
        problem: Seq<char>,
    ) -> PublicationView {
        if found == Some(wanted) {
            next
        } else {
            self.stopped(problem)
        }
    }

    /// The publication once a step has been answered.
    pub open spec fn answered(self, event: EventView) -> PublicationView {
        let journal = self.journal->0;
        let staged = self.binding.staged;
        match (self.stage, event) {
            (Stage::WritingReceipt, EventView::Done | EventView::Failed(_)) => self.at(
                Stage::Cleaning,
            ),
            (Stage::Cleaning, EventView::Done | EventView::Failed(_)) => self.at(Stage::Published),
            (Stage::Published, _) => self,
            (Stage::Stopped, _) => self,
            (_, EventView::Failed(problem)) => self.stopped(problem),
            (Stage::ReadingJournal, EventView::Journal(None)) => self.at(Stage::FindingOld),
            (Stage::ReadingJournal, EventView::Journal(Some(found))) => match found.refusal(
                self.binding,
            ) {
                Some(problem) => self.stopped(problem),
                None => self.with_journal(found, Stage::Preparing),
            },
            (Stage::FindingOld, EventView::Found(current)) => PublicationView {
                old: if current == Some(staged) {
                    None
                } else {
                    current
                },
                stage: Stage::ReadingClock,
                ..self
            },
            (Stage::ReadingClock, EventView::Clock(now)) => {
                let stamp = timestamp_text(now as int);
                if self.old is Some && path_refusal(
                    backup_text(self.binding.name, stamp, 0),
                ) is Some {
                    self.stopped(path_refusal(backup_text(self.binding.name, stamp, 0))->0)
                } else {
                    self.with_journal(
                        JournalView::fresh(self.binding, self.old, stamp),
                        Stage::WritingJournal,
                    )
                }
            },
            (Stage::WritingJournal, EventView::Done) => self.at(Stage::Preparing),
            (Stage::Preparing, EventView::Done) => self.after_preparing(),
            (Stage::FindingBackup, EventView::Found(found)) => if found == journal.old {
                self.with_journal(journal.in_phase(Phase::OldBackedUp), Stage::WritingBackedUp)
            } else {
                self.at(Stage::FindingTarget)
            },
            (Stage::FindingTarget, EventView::Found(found)) => self.expecting(
                found,
                journal.old->0,
                self.at(Stage::BackingUp),
                "发布旧目标已被外部进程改变"@,
            ),
            (Stage::BackingUp, EventView::Done) => self.at(Stage::SyncingBackup),
            (Stage::BackingUp, EventView::Exists) => {
                let next = journal.next_backup(self.binding.name);
                if journal.suffix >= MAX_BACKUP_SUFFIX {
                    self.stopped("备份名称碰撞次数超限"@)
                } else if path_refusal(next.backup->0) is Some {
                    self.stopped(path_refusal(next.backup->0)->0)
                } else {
                    self.with_journal(next, Stage::WritingSuffix)
                }
            },
            (Stage::WritingSuffix, EventView::Done) => self.at(Stage::FindingBackup),
            (Stage::SyncingBackup, EventView::Done) => self.at(Stage::ConfirmingBackup),
            (Stage::ConfirmingBackup, EventView::Found(found)) => self.expecting(
                found,
                journal.old->0,
                self.with_journal(journal.in_phase(Phase::OldBackedUp), Stage::WritingBackedUp),
                "发布备份身份已被外部进程改变"@,
            ),
            (Stage::WritingBackedUp, EventView::Done) => self.after_backup(),
            (Stage::RecheckingBackup, EventView::Found(found)) => self.expecting(
                found,
                journal.old->0,
                self.after_recheck(),
                "发布备份丢失或身份变化"@,
            ),
            (Stage::Linking, EventView::Done) => self.at(Stage::SyncingPublished),
            (Stage::Linking, EventView::Exists) => self.at(Stage::FindingClaim),
            (Stage::FindingClaim, EventView::Found(found)) => self.expecting(
                found,
                staged,
                self.at(Stage::SyncingPublished),
                "发布目标被外部进程抢占"@,
            ),
            (Stage::SyncingPublished, EventView::Done) => self.with_journal(
                journal.in_phase(Phase::NewPublished),
                Stage::WritingPublished,
            ),
            (Stage::WritingPublished, EventView::Done) => self.at(Stage::FindingPublished),
            (Stage::FindingPublished, EventView::Found(found)) => self.expecting(
                found,
                staged,
                self.at(Stage::SyncingTarget),
                "发布正式文件身份不符"@,
            ),
            (Stage::SyncingTarget, EventView::Done) => self.at(Stage::Verifying),
            (Stage::Verifying, EventView::Done) => self.at(Stage::FindingFinal),
            (Stage::FindingFinal, EventView::Found(found)) => self.expecting(
                found,
                staged,
                self.at(Stage::Committing),
                "发布正式文件在回执前被替换"@,
            ),
            (Stage::Committing, EventView::Done) => self.with_journal(
                journal.in_phase(Phase::ReceiptCommitted),
                Stage::WritingReceipt,
            ),
            _ => self.stopped("发布步骤与结果不符"@),
        }
    }

    /// A journal is at hand wherever one is needed.
    pub open spec fn valid(self) -> bool {
        &&& match self.stage {
            Stage::ReadingJournal | Stage::FindingOld | Stage::ReadingClock | Stage::Stopped =>
                true,
            _ => self.journal is Some,
        }
        &&& self.journal matches Some(journal) ==> journal.suffix <= MAX_BACKUP_SUFFIX && (
        journal.old is Some == journal.backup is Some)
        &&& match self.stage {
            Stage::FindingBackup
            | Stage::FindingTarget
            | Stage::BackingUp
            | Stage::WritingSuffix
            | Stage::SyncingBackup
            | Stage::ConfirmingBackup
            | Stage::RecheckingBackup => self.journal->0.old is Some,
            _ => true,
        }
    }
}

/// A publication under way. The caller does what `action` asks for and reports it.
#[derive(Debug)]
pub struct Publication {
    binding: Binding,
    stage: Stage,
    old: Option<FileIdentity>,
    journal: Option<Journal>,
    problem: Option<String>,
}

impl View for Publication {
    type V = PublicationView;

    closed spec fn view(&self) -> PublicationView {
        PublicationView {
            binding: self.binding@,
            stage: self.stage,
            old: self.old,
            journal: match self.journal {
                Some(journal) => Some(journal@),
                None => None,
            },
            problem: text_view(self.problem),
        }
    }
}

impl Publication {
    /// Starts to put a received file in its place.
    pub fn start(binding: Binding) -> (publication: Publication)
        ensures
            publication@ == PublicationView::started(binding@),
            publication@.valid(),
    {
        Publication {
            binding,
            stage: Stage::ReadingJournal,
            old: None,
            journal: None,
            problem: None,
        }
    }

    /// Where the publication stands.
    pub fn stage(&self) -> (stage: Stage)
        ensures
            stage == self@.stage,
    {
        self.stage
    }

    /// What has to be done next.
    pub fn action(&self) -> (action: PublishAction)
        ensures
            action == self@.stage.needs(),
    {
        match self.stage {
            Stage::ReadingJournal => PublishAction::ReadJournal,
            Stage::FindingOld => PublishAction::IdentifyTarget,
            Stage::ReadingClock => PublishAction::ReadClock,
            Stage::WritingJournal => PublishAction::WriteJournal,
            Stage::Preparing => PublishAction::PrepareStore,
            Stage::FindingBackup => PublishAction::IdentifyBackup,
            Stage::FindingTarget => PublishAction::IdentifyTarget,
            Stage::BackingUp => PublishAction::RenameToBackup,
            Stage::WritingSuffix => PublishAction::WriteJournal,
            Stage::SyncingBackup => PublishAction::SyncParent,
            Stage::ConfirmingBackup => PublishAction::IdentifyBackup,
            Stage::WritingBackedUp => PublishAction::WriteJournal,
            Stage::RecheckingBackup => PublishAction::IdentifyBackup,
            Stage::Linking => PublishAction::LinkStaged,
            Stage::FindingClaim => PublishAction::IdentifyTarget,
            Stage::SyncingPublished => PublishAction::SyncParent,
            Stage::WritingPublished => PublishAction::WriteJournal,
            Stage::FindingPublished => PublishAction::IdentifyTarget,
            Stage::SyncingTarget => PublishAction::SyncTarget,
            Stage::Verifying => PublishAction::VerifyTarget,
            Stage::FindingFinal => PublishAction::IdentifyTarget,
            Stage::Committing => PublishAction::CommitReceipt,
            Stage::WritingReceipt => PublishAction::WriteJournal,
            Stage::Cleaning => PublishAction::CleanStaging,
            Stage::Published => PublishAction::Nothing,
            Stage::Stopped => PublishAction::Nothing,
        }
    }

    /// The journal to be written.
    pub fn journal(&self) -> (journal: Option<&Journal>)
        ensures
            journal is Some <==> self@.journal is Some,
            journal matches Some(found) ==> Some(found@) == self@.journal,
    {
        match &self.journal {
            Some(journal) => Some(journal),
            None => None,
        }
    }

    /// The name under which what stood in the place is kept.
    pub fn backup(&self) -> (backup: Option<&str>)
        ensures
            backup is Some <==> (self@.journal is Some && self@.journal->0.backup is Some),
            backup matches Some(text) ==> Some(text@) == self@.journal->0.backup,
    {
        match &self.journal {
            Some(journal) => match &journal.backup {
                Some(text) => Some(text.as_str()),
                None => None,
            },
            None => None,
        }
    }

    /// Why the publication stopped.
    pub fn problem(&self) -> (problem: Option<&str>)
        ensures
            problem is Some <==> self@.problem is Some,
            problem matches Some(text) ==> Some(text@) == self@.problem,
    {
        match &self.problem {
            Some(text) => Some(text.as_str()),
            None => None,
        }
    }

    fn stop(&mut self, problem: &str)
        ensures
            final(self)@ == old(self)@.stopped(problem@),
    {
        self.stage = Stage::Stopped;
        self.problem = Some(problem.to_owned());
    }

    fn enter_phase(&mut self, phase: Phase, stage: Stage)
        requires
            old(self)@.journal is Some,
        ensures
            final(self)@ == old(self)@.with_journal(old(self)@.journal->0.in_phase(phase), stage),
    {
        self.stage = stage;
        match &mut self.journal {
            Some(journal) => {
                journal.phase = phase;
            },
            None => {},
        }
    }

    fn expect(
        &mut self,
        found: Option<FileIdentity>,
        wanted: Option<FileIdentity>,
        next: Stage,
        problem: &str,
    )
        requires
            wanted is Some,
        ensures
            final(self)@ == if found == wanted {
                old(self)@.at(next)
            } else {
                old(self)@.stopped(problem@)
            },
    {
        if same_identity(&found, &wanted) {
            self.stage = next;
        } else {
            self.stop(problem);
        }
    }

    fn recorded_old(&self) -> (old: Option<FileIdentity>)
        ensures
            self@.journal matches Some(journal) ==> old == journal.old,
    {
        match &self.journal {
            Some(journal) => journal.old,
            None => None,
        }
    }

    fn recorded_phase(&self) -> (phase: Phase)
        ensures
            self@.journal matches Some(journal) ==> phase == journal.phase,
    {
        match &self.journal {
            Some(journal) => journal.phase,
            None => Phase::Prepared,
        }
    }

    fn go_after_recheck(&mut self)
        requires
            old(self)@.journal is Some,
        ensures
            final(self)@ == old(self)@.after_recheck(),
    {
        if self.recorded_phase() == Phase::OldBackedUp {
            self.stage = Stage::Linking;
        } else {
            self.stage = Stage::FindingPublished;
        }
    }

    fn go_after_backup(&mut self)
        requires
            old(self)@.journal is Some,
        ensures
            final(self)@ == old(self)@.after_backup(),
    {
        if self.recorded_old().is_some() {
            self.stage = Stage::RecheckingBackup;
        } else {
            self.go_after_recheck();
        }
    }

    fn go_after_preparing(&mut self)
        requires
            old(self)@.journal is Some,
        ensures
            final(self)@ == old(self)@.after_preparing(),
    {
        if self.recorded_phase() != Phase::Prepared {
            self.go_after_backup();
        } else if self.recorded_old().is_some() {
            self.stage = Stage::FindingBackup;
        } else {
            self.enter_phase(Phase::OldBackedUp, Stage::WritingBackedUp);
        }
    }

    fn take_journal(&mut self, found: Option<Journal>)
        requires
            old(self)@.stage == Stage::ReadingJournal,
        ensures
            final(self)@ == old(self)@.answered(
                EventView::Journal(
                    match found {
                        Some(journal) => Some(journal@),
                        None => None,
                    },
                ),
            ),
    {
        match found {
            None => {
                self.stage = Stage::FindingOld;
            },
            Some(journal) => match journal.check(&self.binding) {
                Ok(_) => {
                    self.journal = Some(journal);
                    self.stage = Stage::Preparing;
                },
                Err(error) => {
                    self.stop(error.text());
                },
            },
        }
    }

    fn take_clock(&mut self, now: i64)
        requires
            old(self)@.stage == Stage::ReadingClock,
        ensures
            final(self)@ == old(self)@.answered(EventView::Clock(now)),
    {
        match Journal::begin(&self.binding, self.old, now) {
            Ok(journal) => {
                self.journal = Some(journal);
                self.stage = Stage::WritingJournal;
            },
            Err(error) => {
                self.stop(error.text());
            },
        }
    }

    fn take_occupied(&mut self)
        requires
            old(self)@.stage == Stage::BackingUp,
            old(self)@.valid(),
        ensures
            final(self)@ == old(self)@.answered(EventView::Exists),
    {
        let mut journal = match self.journal.take() {
            Some(journal) => journal,
            None => {
                return ;
            },
        };
        if journal.suffix >= MAX_BACKUP_SUFFIX {
            self.journal = Some(journal);
            self.stop("备份名称碰撞次数超限");
            return ;
        }
        let next: u32 = journal.suffix + 1;
        match backup_name(&self.binding.name, &journal.timestamp, next) {
            Ok(backup) => {
                journal.suffix = next;
                journal.backup = Some(backup);
                self.journal = Some(journal);
                self.stage = Stage::WritingSuffix;
            },
            Err(error) => {
                self.journal = Some(journal);
                self.stop(error.text());
            },
        }
    }

    fn take_found(&mut self, found: Option<FileIdentity>)
        requires
            old(self)@.valid(),
            old(self)@.stage != Stage::Published,
            old(self)@.stage != Stage::Stopped,
        ensures
            final(self)@ == old(self)@.answered(EventView::Found(found)),
    {
        let staged = Some(self.binding.staged);
        let recorded = self.recorded_old();
        match self.stage {
            Stage::FindingOld => {
                self.old = if same_identity(&found, &staged) {
                    None
                } else {
                    found
                };
                self.stage = Stage::ReadingClock;
            },
            Stage::FindingBackup => {
                if same_identity(&found, &recorded) {
                    self.enter_phase(Phase::OldBackedUp, Stage::WritingBackedUp);
                } else {
                    self.stage = Stage::FindingTarget;
                }
            },
            Stage::FindingTarget => {
                self.expect(found, recorded, Stage::BackingUp, "发布旧目标已被外部进程改变");
            },
            Stage::ConfirmingBackup => {
                if same_identity(&found, &recorded) {
                    self.enter_phase(Phase::OldBackedUp, Stage::WritingBackedUp);
                } else {
                    self.stop("发布备份身份已被外部进程改变");
                }
            },
            Stage::RecheckingBackup => {
                if same_identity(&found, &recorded) {
                    self.go_after_recheck();
                } else {
                    self.stop("发布备份丢失或身份变化");
                }
            },
            Stage::FindingClaim => {
                self.expect(found, staged, Stage::SyncingPublished, "发布目标被外部进程抢占");
            },
            Stage::FindingPublished => {
                self.expect(found, staged, Stage::SyncingTarget, "发布正式文件身份不符");
            },
            Stage::FindingFinal => {
                self.expect(found, staged, Stage::Committing, "发布正式文件在回执前被替换");
            },
            _ => {
                self.stop("发布步骤与结果不符");
            },
        }
    }

    fn take_done(&mut self)
        requires
            old(self)@.valid(),
        ensures
            final(self)@ == old(self)@.answered(EventView::Done),
    {
        match self.stage {
            Stage::WritingJournal => {
                self.stage = Stage::Preparing;
            },
            Stage::Preparing => {
                self.go_after_preparing();
            },
            Stage::BackingUp => {
                self.stage = Stage::SyncingBackup;
            },
            Stage::WritingSuffix => {
                self.stage = Stage::FindingBackup;
            },
            Stage::SyncingBackup => {
                self.stage = Stage::ConfirmingBackup;
            },
            Stage::WritingBackedUp => {
                self.go_after_backup();
            },
            Stage::Linking => {
                self.stage = Stage::SyncingPublished;
            },
            Stage::SyncingPublished => {
                self.enter_phase(Phase::NewPublished, Stage::WritingPublished);
            },
            Stage::WritingPublished => {
                self.stage = Stage::FindingPublished;
            },
            Stage::SyncingTarget => {
                self.stage = Stage::Verifying;
            },
            Stage::Verifying => {
                self.stage = Stage::FindingFinal;
            },
            Stage::Committing => {
                self.enter_phase(Phase::ReceiptCommitted, Stage::WritingReceipt);
            },
            Stage::WritingReceipt => {
                self.stage = Stage::Cleaning;
            },
            Stage::Cleaning => {
                self.stage = Stage::Published;
            },
            Stage::Published | Stage::Stopped => {},
            _ => {
                self.stop("发布步骤与结果不符");
            },
        }
    }

    fn take_failure(&mut self, problem: &str)
        requires
            old(self)@.stage != Stage::Published,
            old(self)@.stage != Stage::Stopped,
        ensures
            final(self)@ == old(self)@.answered(EventView::Failed(problem@)),
    {
        if self.stage == Stage::WritingReceipt {
            self.stage = Stage::Cleaning;
        } else if self.stage == Stage::Cleaning {
            self.stage = Stage::Published;
        } else {
            self.stop(problem);
        }
    }

    fn take_mismatch(&mut self)
        ensures
            final(self)@ == old(self)@.stopped("发布步骤与结果不符"@),
    {
        self.stop("发布步骤与结果不符");
    }

    /// Takes the outcome of the step that was asked for.
    #[verifier::rlimit(60)]
    pub fn answer(&mut self, event: PublishEvent)
        requires
            old(self)@.valid(),
        ensures
            final(self)@ == old(self)@.answered(event.event()),
            final(self)@.valid(),
    {
        proof {
            answers_keep_publications_valid(self@, event.event());
        }
        if self.stage == Stage::Published || self.stage == Stage::Stopped {
            return ;
        }
        match event {
            PublishEvent::Done => {
                self.take_done();
            },
            PublishEvent::Failed(error) => {
                self.take_failure(error.text());
            },
            PublishEvent::Journal(found) => {
                if self.stage == Stage::ReadingJournal {
                    self.take_journal(found);
                } else {
                    self.take_mismatch();
                }
            },
            PublishEvent::Clock(now) => {
                if self.stage == Stage::ReadingClock {
                    self.take_clock(now);
                } else {
                    self.take_mismatch();
                }
            },
            PublishEvent::Exists => {
                if self.stage == Stage::BackingUp {
                    self.take_occupied();
                } else if self.stage == Stage::Linking {
                    self.stage = Stage::FindingClaim;
                } else {
                    self.take_mismatch();
                }
            },
            PublishEvent::Found(found) => {
                self.take_found(found);
            },
        }
    }
}

/// Every answer leaves a publication that can be continued or has stopped.
#[verifier::rlimit(60)]
pub proof fn answers_keep_publications_valid(publication: PublicationView, event: EventView)
    requires
        publication.valid(),
    ensures
        publication.answered(event).valid(),
{
}

fn same_identity(left: &Option<FileIdentity>, right: &Option<FileIdentity>) -> (same: bool)
    ensures
        same == (*left == *right),
{
    match (left, right) {
        (None, None) => true,
        (Some(one), Some(other)) => *one == *other,
        _ => false,
    }
}

/// Why content in its place is not what was received: another length, or another
/// manifest.
pub open spec fn content_refusal(
    expected: ManifestView,
    length: u64,
    found: Option<ManifestView>,
) -> Option<Seq<char>> {
    if length != expected.total_len || found != Some(expected) {
        Some("发布内容校验失败"@)
    } else {
        None
    }
}

/// Checks content in its place against its manifest. Content of another length is
/// refused without a manifest.
pub fn verify(expected: &FileManifest, length: u64, found: Option<&FileManifest>) -> (result:
    Result<()>)
    ensures
        decided(
            result,
            content_refusal(
                expected@,
                length,
                match found {
                    None => None,
                    Some(manifest) => Some(manifest@),
                },
            ),
        ),
{
    if length != expected.total_len {
        return Err(failure("发布内容校验失败"));
    }
    match found {
        Some(manifest) => if manifest.same_as(expected) {
            Ok(())
        } else {
            Err(failure("发布内容校验失败"))
        },
        None => Err(failure("发布内容校验失败")),
    }
}

/// Why a received file is not published at all.
pub open spec fn binding_refusal(task: TaskView) -> Option<Seq<char>> {
    match task.details {
        DetailsView::File(file) => path_refusal(file.relative_path),
        _ => Some("缺少文件绑定"@),
    }
}

/// What the publication of a received file belongs to, and the directories that lead to
/// its place below the receive root.
pub fn bind(record: &TaskRecord, staged: FileIdentity, parent: FileIdentity) -> (result: Result<
    (Vec<String>, Binding),
>)
    ensures
        decided(result, binding_refusal(record@)),
        result matches Ok((parts, binding)) ==> {
            let file = record@.details->File_0;
            &&& views(parts@).push(binding.name@) == pieces(file.relative_path, '/')
            &&& binding@ == (BindingView {
                task: record@.task_id,
                peer: record@.peer_id,
                relative: file.relative_path,
                root_hash: crate::identity::hex_text(file.manifest.root_hash.bytes()),
                name: binding.name@,
                staged,
                parent,
            })
        },
{
    match record.details() {
        TaskDetails::File(file) => {
            let (parts, name) = split_parent(&file.relative_path)?;
            let binding = Binding {
                task: record.task_id().as_str().to_owned(),
                peer: record.peer_id().as_str().to_owned(),
                relative: file.relative_path.clone(),
                root_hash: file.manifest.root_hash.to_hex(),
                name,
                staged,
                parent,
            };
            Ok((parts, binding))
        },
        _ => Err(failure("缺少文件绑定")),
    }
}

/// The place of a received directory below its root.
pub fn directory_place(record: &TaskRecord) -> (result: Result<String>)
    ensures
        match record@.details {
            DetailsView::Directory(details) => result matches Ok(path) && path@
                == details.relative_path,
            _ => result matches Err(error) && error.refuses("缺少目录绑定"@),
        },
{
    match record.directory_details() {
        None => Err(failure("缺少目录绑定")),
        Some(details) => Ok(details.relative_path.clone()),
    }
}

/// A journal is continued only for the publication that began it: the same task, peer,
/// path, content and files, and the backup that follows from its own name and time.
pub proof fn only_own_journals_are_continued(journal: JournalView, binding: BindingView)
    ensures
        journal.refusal(binding) is None <==> {
            &&& journal.version == 1
            &&& journal.task == binding.task
            &&& journal.peer == binding.peer
            &&& journal.relative == binding.relative
            &&& journal.root_hash == binding.root_hash
            &&& journal.staged == binding.staged
            &&& journal.parent == binding.parent
            &&& journal.suffix <= 10000
            &&& is_timestamp(journal.timestamp)
            &&& match journal.backup {
                None => journal.old is None,
                Some(backup) => journal.old is Some && path_refusal(backup) is None
                    && !backup.contains('/') && backup == backup_text(
                    binding.name,
                    journal.timestamp,
                    journal.suffix,
                ),
            }
        },
{
}

/// A publication notes the file that stands in the place, under whose name it is kept, and
/// goes on with that journal when it is found again.
pub proof fn begun_journals_are_continued(
    binding: BindingView,
    old: Option<FileIdentity>,
    now: i64,
    phase: Phase,
)
    requires
        is_timestamp(timestamp_text(now as int)),
        old is Some ==> path_refusal(
            backup_text(binding.name, timestamp_text(now as int), 0),
        ) is None && !backup_text(binding.name, timestamp_text(now as int), 0).contains('/'),
    ensures
        ({
            let journal = JournalView::fresh(binding, old, timestamp_text(now as int));
            &&& journal.phase == Phase::Prepared
            &&& journal.old == old
            &&& journal.in_phase(phase).phase == phase
            &&& journal.refusal(binding) is None
            &&& journal.in_phase(phase).refusal(binding) is None
        }),
{
}

/// No step is left out and none is taken early: what has not been made durable and checked
/// is not built on.
#[verifier::rlimit(60)]
pub proof fn publications_keep_their_order(publication: PublicationView, event: EventView)
    ensures
        ({
            let before = publication.stage;
            let after = publication.answered(event).stage;
            let done = event == EventView::Done;
            before != after ==> {
                &&& after == Stage::SyncingBackup ==> before == Stage::BackingUp && done
                &&& after == Stage::ConfirmingBackup ==> before == Stage::SyncingBackup && done
                &&& after == Stage::SyncingPublished ==> (before == Stage::Linking && done) || (
                before == Stage::FindingClaim && event == EventView::Found(
                    Some(publication.binding.staged),
                ))
                &&& after == Stage::WritingPublished ==> before == Stage::SyncingPublished && done
                &&& after == Stage::SyncingTarget ==> before == Stage::FindingPublished && event
                    == EventView::Found(Some(publication.binding.staged))
                &&& after == Stage::Verifying ==> before == Stage::SyncingTarget && done
                &&& after == Stage::FindingFinal ==> before == Stage::Verifying && done
                &&& after == Stage::WritingReceipt ==> before == Stage::Committing && done
                &&& after == Stage::Cleaning ==> before == Stage::WritingReceipt
                &&& after == Stage::Published ==> before == Stage::Cleaning
                &&& after == Stage::Preparing ==> before == Stage::WritingJournal || before
                    == Stage::ReadingJournal
                &&& after == Stage::WritingJournal ==> before == Stage::ReadingClock
            }
        }),
{
}

/// Each stage asks for the step that it is named after, and nothing is left to do only at
/// the end.
pub proof fn stages_ask_for_their_step(stage: Stage)
    ensures
        stage.needs() == PublishAction::Nothing <==> stage == Stage::Published || stage
            == Stage::Stopped,
        stage.needs() == PublishAction::SyncParent <==> stage == Stage::SyncingBackup || stage
            == Stage::SyncingPublished,
        stage.needs() == PublishAction::SyncTarget <==> stage == Stage::SyncingTarget,
        stage.needs() == PublishAction::VerifyTarget <==> stage == Stage::Verifying,
        stage.needs() == PublishAction::CommitReceipt <==> stage == Stage::Committing,
        stage.needs() == PublishAction::CleanStaging <==> stage == Stage::Cleaning,
        stage.needs() == PublishAction::LinkStaged <==> stage == Stage::Linking,
        stage.needs() == PublishAction::RenameToBackup <==> stage == Stage::BackingUp,
        stage.needs() == PublishAction::PrepareStore <==> stage == Stage::Preparing,
        stage.needs() == PublishAction::ReadJournal <==> stage == Stage::ReadingJournal,
        stage.needs() == PublishAction::ReadClock <==> stage == Stage::ReadingClock,
        stage.needs() == PublishAction::WriteJournal <==> stage == Stage::WritingJournal || stage
            == Stage::WritingSuffix || stage == Stage::WritingBackedUp || stage
            == Stage::WritingPublished || stage == Stage::WritingReceipt,
{
}

/// A step that fails before the receipt stops the publication and is told; after it, the
/// file is published all the same.
pub proof fn failures_before_the_receipt_stop(publication: PublicationView, problem: Seq<char>)
    ensures
        ({
            let after = publication.answered(EventView::Failed(problem));
            match publication.stage {
                Stage::WritingReceipt => after == (PublicationView {
                    stage: Stage::Cleaning,
                    ..publication
                }),
                Stage::Cleaning => after == (PublicationView {
                    stage: Stage::Published,
                    ..publication
                }),
                Stage::Published | Stage::Stopped => after == publication,
                _ => after == (PublicationView {
                    stage: Stage::Stopped,
                    problem: Some(problem),
                    ..publication
                }),
            }
        }),
{
}

/// A name is its front and its extension, and only its last dot, unless it comes first,
/// begins one.
pub proof fn extensions_begin_at_the_last_dot(name: Seq<char>)
    ensures
        name_stem(name) + name_extension(name) == name,
        name_extension(name).len() > 0 ==> name_extension(name)[0] == '.' && name_stem(name).len()
            > 0 && forall|i: int|
            0 < i < name_extension(name).len() ==> #[trigger] name_extension(name)[i] != '.',
        name_extension(name).len() == 0 ==> forall|i: int|
            0 < i < name.len() ==> #[trigger] name[i] != '.',
{
    lemma_last_dot(name);
    assert(name_stem(name) + name_extension(name) =~= name);
}

proof fn lemma_last_dot(name: Seq<char>)
    ensures
        0 <= last_dot(name) <= name.len(),
        last_dot(name) < name.len() ==> name[last_dot(name)] == '.',
        forall|i: int| last_dot(name) < i < name.len() ==> #[trigger] name[i] != '.',
        last_dot(name) == name.len() ==> forall|i: int|
            0 <= i < name.len() ==> #[trigger] name[i] != '.',
    decreases name.len(),
{
    if name.len() > 0 && name.last() != '.' {
        let front = name.drop_last();
        lemma_last_dot(front);
        assert forall|i: int| last_dot(name) < i < name.len() implies #[trigger] name[i] != '.' by {
            if i < front.len() {
                assert(front[i] == name[i]);
            }
        }
        if last_dot(name) == name.len() {
            assert forall|i: int| 0 <= i < name.len() implies #[trigger] name[i] != '.' by {
                if i < front.len() {
                    assert(front[i] == name[i]);
                }
            }
        }
    }
}

/// A backup keeps the front of the name and its extension and bears the time between them,
/// and each further try has another name.
pub proof fn backups_are_named_apart(
    name: Seq<char>,
    stamp: Seq<char>,
    suffix: u32,
    other: u32,
)
    ensures
        ({
            let backup = backup_text(name, stamp, suffix);
            let front = name_stem(name);
            &&& backup.len() >= name.len() + 1 + stamp.len()
            &&& backup.take(front.len() as int) == front
            &&& backup[front.len() as int] == '+'
            &&& backup.subrange(front.len() as int + 1, front.len() as int + 1 + stamp.len()) == stamp
            &&& backup.skip(backup.len() - name_extension(name).len()) == name_extension(name)
            &&& suffix == 0 ==> backup.len() == name.len() + 1 + stamp.len()
        }),
        backup_text(name, stamp, suffix) == backup_text(name, stamp, other) ==> suffix == other,
{
    reveal_strlit("+");
    reveal_strlit("-");
    extensions_begin_at_the_last_dot(name);
    let front = name_stem(name);
    let back = name_extension(name);
    assert(front.len() + back.len() == name.len()) by {
        assert((front + back).len() == name.len());
    }
    let backup = backup_text(name, stamp, suffix);
    let middle = if suffix == 0 {
        Seq::<char>::empty()
    } else {
        "-"@ + decimal(suffix as nat)
    };
    let middle_other = if other == 0 {
        Seq::<char>::empty()
    } else {
        "-"@ + decimal(other as nat)
    };
    assert(backup.take(front.len() as int) =~= front);
    assert(backup.subrange(front.len() as int + 1, front.len() as int + 1 + stamp.len()) =~= stamp);
    assert(backup.skip(backup.len() - back.len()) =~= back);
    let from = front.len() + 1 + stamp.len();
    assert(backup.subrange(from as int, backup.len() - back.len()) =~= middle);
    let second = backup_text(name, stamp, other);
    assert(second.subrange(from as int, second.len() - back.len()) =~= middle_other);
    if backup == second && suffix != other {
        assert(middle == middle_other);
        if suffix != 0 && other != 0 {
            assert(middle.skip(1) =~= decimal(suffix as nat));
            assert(middle_other.skip(1) =~= decimal(other as nat));
            crate::text::lemma_decimal_reads_back(suffix as nat);
            crate::text::lemma_decimal_reads_back(other as nat);
        } else {
            assert(middle.len() != middle_other.len());
        }
    }
}

/// Content in its place is accepted exactly if it has the announced length and manifest.
pub proof fn published_content_is_checked(expected: ManifestView, length: u64, found: ManifestView)
    ensures
        content_refusal(expected, length, Some(found)) is None <==> length == expected.total_len
            && found == expected,
        content_refusal(expected, length, None) is Some,
{
}

} // verus!
