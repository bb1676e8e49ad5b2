use p2p_desktop::calendar::{looks_like_timestamp, timestamp};
use p2p_desktop::error::Error;
use p2p_desktop::chunker::manifest_from_bytes;
use p2p_desktop::manifest::MIN_CHUNK_SIZE;
use p2p_desktop::publish::{
    backup_name, verify, Binding, Journal, Phase, Publication, PublishAction, PublishEvent, Stage,
};
use p2p_desktop::secure_fs::{
    check_file, check_journal_size, check_root, journal_temp_name, split_parent, AliasScan,
    EntryKind, FileIdentity,
};

const OLD: FileIdentity = FileIdentity { volume: 1, index: 10 };
const STAGED: FileIdentity = FileIdentity { volume: 1, index: 20 };
const PARENT: FileIdentity = FileIdentity { volume: 1, index: 1 };
const STRANGER: FileIdentity = FileIdentity { volume: 1, index: 99 };

fn binding() -> Binding {
    Binding {
        task: "00112233445566778899aabbccddeeff".into(),
        peer: "ffeeddccbbaa99887766554433221100".into(),
        relative: "nested/report.txt".into(),
        root_hash: "ab".repeat(32),
        name: "report.txt".into(),
        staged: STAGED,
        parent: PARENT,
    }
}

fn copy(journal: &Journal) -> Journal {
    Journal {
        version: journal.version,
        task: journal.task.clone(),
        peer: journal.peer.clone(),
        relative: journal.relative.clone(),
        root_hash: journal.root_hash.clone(),
        parent: journal.parent,
        staged: journal.staged,
        old: journal.old,
        backup: journal.backup.clone(),
        timestamp: journal.timestamp.clone(),
        suffix: journal.suffix,
        phase: journal.phase,
    }
}

/// A directory, the journal beside the staged file, and the store's receipt.
struct Disk {
    target: Option<FileIdentity>,
    kept: Vec<(String, FileIdentity)>,
    journal: Option<Journal>,
    receipts: usize,
    clock: i64,
}

impl Disk {
    fn find(&self, name: Option<&str>) -> Option<FileIdentity> {
        self.kept.iter().find(|kept| Some(kept.0.as_str()) == name).map(|kept| kept.1)
    }

    /// Does what a publication asks for.
    fn step(&mut self, publication: &Publication) -> PublishEvent {
        let backup = publication.backup().map(|name| name.to_string());
        match publication.action() {
            PublishAction::ReadJournal => {
                PublishEvent::Journal(self.journal.as_ref().map(copy))
            }
            PublishAction::IdentifyTarget => PublishEvent::Found(self.target),
            PublishAction::IdentifyBackup => PublishEvent::Found(self.find(backup.as_deref())),
            PublishAction::ReadClock => PublishEvent::Clock(self.clock),
            PublishAction::WriteJournal => {
                self.journal = publication.journal().map(copy);
                PublishEvent::Done
            }
            PublishAction::RenameToBackup => {
                if self.find(backup.as_deref()).is_some() {
                    return PublishEvent::Exists;
                }
                let moved = self.target.take().unwrap();
                self.kept.push((backup.unwrap(), moved));
                PublishEvent::Done
            }
            PublishAction::LinkStaged => {
                if self.target.is_some() {
                    return PublishEvent::Exists;
                }
                self.target = Some(STAGED);
                PublishEvent::Done
            }
            PublishAction::CommitReceipt => {
                self.receipts += 1;
                PublishEvent::Done
            }
            PublishAction::PrepareStore
            | PublishAction::SyncParent
            | PublishAction::SyncTarget
            | PublishAction::VerifyTarget
            | PublishAction::CleanStaging
            | PublishAction::Nothing => PublishEvent::Done,
        }
    }

    fn run(&mut self, steps: usize) -> Publication {
        let mut publication = Publication::start(binding());
        for _ in 0..steps {
            let event = self.step(&publication);
            publication.answer(event);
        }
        publication
    }
}

fn disk(target: Option<FileIdentity>) -> Disk {
    Disk { target, kept: Vec::new(), journal: None, receipts: 0, clock: 1_600_000_000_123 }
}

#[test]
fn backup_timestamp_is_utc_and_no_replace_rename_preserves_destination() {
    assert_eq!(timestamp(0), "19700101T000000000Z");
    assert_eq!(timestamp(1_600_000_000_123), "20200913T122640123Z");
    assert_eq!(
        backup_name("report.txt", "20200913T122640123Z", 1).unwrap(),
        "report+20200913T122640123Z-1.txt"
    );
    assert!(looks_like_timestamp(&timestamp(0)));
    assert!(!looks_like_timestamp("20200913T122640123"));
    assert_eq!(timestamp(-1), "19700101T000000-01Z");
    assert_eq!(timestamp(951_782_400_000), "20000229T000000000Z");
}

#[test]
fn every_publication_boundary_reopens_without_losing_old_data_or_duplicate_backup() {
    for steps in 0..40 {
        let mut disk = disk(Some(OLD));
        let stopped = disk.run(steps);
        if stopped.stage() != Stage::Published && disk.receipts == 0 {
            let publication = disk.run(60);
            assert_eq!(publication.stage(), Stage::Published, "{:?}", publication.problem());
        }
        assert_eq!(disk.target, Some(STAGED));
        assert_eq!(disk.kept.len(), 1);
        assert_eq!(disk.kept[0].0, "report+20200913T122640123Z.txt");
        assert_eq!(disk.kept[0].1, OLD);
        assert_eq!(disk.receipts, 1);
    }
}

#[test]
fn stops_with_taken_names_and_a_later_clock_leave_one_backup() {
    for steps in 0..60 {
        let mut disk = disk(Some(OLD));
        for name in [
            "report+20200913T122640123Z.txt",
            "report+20200913T122640123Z-1.txt",
            "report+20200913T122640124Z.txt",
        ] {
            disk.kept.push((name.to_string(), STRANGER));
        }
        let stopped = disk.run(steps);
        assert!(disk.target == Some(OLD) || disk.kept.iter().any(|kept| kept.1 == OLD));
        if disk.receipts == 0 {
            assert_ne!(stopped.stage(), Stage::Published);
            disk.clock += 1;
            let publication = disk.run(60);
            assert_eq!(publication.stage(), Stage::Published, "{:?}", publication.problem());
        }
        assert_eq!(disk.receipts, 1);
        assert_eq!(disk.target, Some(STAGED));
        assert_eq!(disk.kept.len(), 4);
        assert_eq!(disk.kept.iter().filter(|kept| kept.1 == OLD).count(), 1);
        assert_eq!(disk.kept[3].1, OLD);
    }
}

#[test]
fn timestamp_collision_preserves_occupied_backup_and_retries_fixed_suffix() {
    let mut disk = disk(Some(OLD));
    disk.kept.push(("report+20200913T122640123Z.txt".into(), STRANGER));
    let publication = disk.run(60);
    assert_eq!(publication.stage(), Stage::Published);
    assert_eq!(disk.kept.len(), 2);
    assert_eq!(disk.kept[0].1, STRANGER);
    assert_eq!(disk.kept[1].0, "report+20200913T122640123Z-1.txt");
    assert_eq!(disk.kept[1].1, OLD);
}

#[test]
fn external_target_claim_is_never_overwritten_and_retry_does_not_backup_again() {
    let mut disk = disk(Some(OLD));
    let mut publication = Publication::start(binding());
    while publication.stage() != Stage::Linking {
        let event = disk.step(&publication);
        publication.answer(event);
    }
    disk.target = Some(STRANGER);
    for _ in 0..2 {
        let event = disk.step(&publication);
        publication.answer(event);
    }
    assert_eq!(publication.stage(), Stage::Stopped);
    assert_eq!(publication.problem(), Some("发布目标被外部进程抢占"));
    assert_eq!(disk.target, Some(STRANGER));
    disk.target = None;
    assert_eq!(disk.run(60).stage(), Stage::Published);
    assert_eq!(disk.kept.len(), 1);
}

#[test]
fn external_replacement_immediately_before_receipt_is_not_completed() {
    let mut disk = disk(Some(OLD));
    let mut publication = Publication::start(binding());
    while publication.stage() != Stage::FindingFinal {
        let event = disk.step(&publication);
        publication.answer(event);
    }
    disk.target = Some(STRANGER);
    let event = disk.step(&publication);
    publication.answer(event);
    assert_eq!(publication.problem(), Some("发布正式文件在回执前被替换"));
    assert_eq!(publication.stage(), Stage::Stopped);
    assert_eq!(disk.receipts, 0);
    assert_eq!(disk.target, Some(STRANGER));
    assert_eq!(disk.kept.len(), 1);
}

#[test]
fn corrupted_journal_binding_is_diagnostic_instead_of_panicking() {
    let mut disk = disk(Some(OLD));
    disk.run(4);
    for change in 0..6 {
        let mut journal = copy(disk.journal.as_ref().unwrap());
        match change {
            0 => journal.version = 2,
            1 => journal.task = "other".into(),
            2 => journal.backup = None,
            3 => journal.timestamp = "yesterday".into(),
            4 => journal.suffix = 10_001,
            _ => journal.parent = STRANGER,
        }
        assert!(journal.check(&binding()).is_err(), "{change}");
        let mut publication = Publication::start(binding());
        publication.answer(PublishEvent::Journal(Some(journal)));
        assert_eq!(publication.stage(), Stage::Stopped);
        assert!(publication.problem().unwrap().contains("journal"), "{change}");
    }
    assert_eq!(disk.receipts, 0);
    assert_eq!(disk.target, Some(OLD));
    assert!(disk.journal.as_ref().unwrap().check(&binding()).is_ok());
    assert_eq!(disk.journal.as_ref().unwrap().phase, Phase::Prepared);
}

#[test]
fn permissions_failure_keeps_recovery_and_does_not_commit_receipt() {
    let mut disk = disk(Some(OLD));
    let mut publication = Publication::start(binding());
    while publication.stage() != Stage::BackingUp {
        let event = disk.step(&publication);
        publication.answer(event);
    }
    publication.answer(PublishEvent::Failed(Error::Protocol("denied".into())));
    assert_eq!(publication.problem(), Some("denied"));
    assert_eq!(disk.target, Some(OLD));
    assert_eq!(disk.receipts, 0);
    assert_eq!(disk.run(60).stage(), Stage::Published);
    assert_eq!(disk.kept.len(), 1);
}

#[test]
fn published_content_is_compared_with_its_manifest() {
    let content = vec![5u8; 20_000];
    let manifest = manifest_from_bytes("a.bin", MIN_CHUNK_SIZE, &content).unwrap();
    assert_eq!(manifest.chunks.len(), 2);
    assert!(verify(&manifest, 20_000, Some(&manifest.duplicate())).is_ok());
    assert!(verify(&manifest, 19_999, None).is_err());
    let other = manifest_from_bytes("a.bin", MIN_CHUNK_SIZE, &vec![6u8; 20_000]).unwrap();
    assert_eq!(
        verify(&manifest, 20_000, Some(&other)).unwrap_err().text(),
        "发布内容校验失败"
    );
}

#[test]
fn existing_alias_cannot_be_used_for_new_target_or_directory() {
    let (parents, name) = split_parent("named/file").unwrap();
    assert_eq!((parents, name.as_str()), (vec!["named".to_string()], "file"));
    assert!(AliasScan::new("named").reject_alias(Some("Named")).is_err());
    assert!(AliasScan::new("e\u{301}.txt").reject_alias(Some("é.txt")).is_err());
    let mut scan = AliasScan::new("Report.txt");
    assert!(scan.reject_alias(Some("other.txt")).is_ok());
    assert!(scan.reject_alias(Some("Report.txt")).is_ok());
    assert!(scan.reject_alias(Some("REPORT.TXT")).is_err());
    let mut scan = AliasScan::new("é.txt");
    assert!(scan.reject_alias(Some("e\u{301}.txt")).is_err());
}

#[test]
fn entries_are_opened_by_kind_and_names_are_split() {
    assert!(check_root(EntryKind::Directory, true, true).is_ok());
    assert!(check_root(EntryKind::Link, true, true).is_err());
    assert!(check_root(EntryKind::Directory, false, true).is_err());
    assert!(check_file(EntryKind::File).is_ok());
    assert!(check_file(EntryKind::Directory).is_err());
    let (parents, name) = split_parent("a/b/c.txt").unwrap();
    assert_eq!(parents, vec!["a".to_string(), "b".to_string()]);
    assert_eq!(name, "c.txt");
    assert!(split_parent("../c.txt").is_err());
    assert!(check_journal_size(65536).is_ok());
    assert!(check_journal_size(65537).is_err());
    assert_eq!(
        journal_temp_name(255),
        "journal-000000000000000000000000000000ff.tmp"
    );
}
