use anime_manager::db::{display_title_sql, escape_like};
use anime_manager::error::AppError;
use anime_manager::models::{EpisodeStatus, RenameEntry, ShowSort};
use anime_manager::needs_dmabuf_workaround;
use anime_manager::parser::ParsedName;
use anime_manager::models::ParseOverride;
use anime_manager::rename::{
    canonical_name, flag_duplicates, pin_override, planned_path, rename_entry, rollback_note, skip_note, undo_note, undo_step,
    UndoStep,
};
use anime_manager::scanner::{
    is_video, note_missing, parse_for_scan, root_scan_start, root_unreadable, roots_to_sweep, tally_file, unreadable_root_note, FileOutcome,
    FileParse,
};
use anime_manager::models::{RootScan, ScanSummary};

#[test]
fn workaround_only_on_nvidia_under_wayland() {
    assert!(needs_dmabuf_workaround(false, true, true));
    assert!(!needs_dmabuf_workaround(false, false, true));
    assert!(!needs_dmabuf_workaround(false, true, false));
    assert!(!needs_dmabuf_workaround(false, false, false));
}

#[test]
fn an_explicit_setting_is_never_overridden() {
    assert!(!needs_dmabuf_workaround(true, true, true));
}

#[test]
fn canonical_name_format() {
    assert_eq!(canonical_name("Sousou no Frieren", 1, 5, "mkv"), "Sousou no Frieren - S01E05.mkv");
    assert_eq!(canonical_name("A/B: C", 2, 12, "mp4"), "A-B- C - S02E12.mp4");
}

#[test]
fn canonical_name_pads_to_two_digits_and_handles_no_extension() {
    assert_eq!(canonical_name("X", 0, 123, ""), "X - S00E123");
    assert_eq!(canonical_name("a\\b*c?d\"e<f>g|h", 1, 1, "ts"), "a-b-c-d-e-f-g-h - S01E01.ts");
}

#[test]
fn planned_path_keeps_folder_and_extension_and_skips_canonical_files() {
    assert_eq!(
        planned_path("/lib/Show/[G] Show - 05.mkv", "Show", 1, 5).as_deref(),
        Some("/lib/Show/Show - S01E05.mkv")
    );
    assert_eq!(planned_path("/lib/Show/Show - S01E05.mkv", "Show", 1, 5), None);
    assert_eq!(planned_path("/lib/Show/raw", "Show", 2, 1).as_deref(), Some("/lib/Show/Show - S02E01"));
}

fn entry(id: i64, new_path: &str, conflict: Option<&str>) -> RenameEntry {
    RenameEntry {
        episode_id: id,
        old_path: format!("/old/{id}.mkv"),
        new_path: new_path.into(),
        conflict: conflict.map(str::to_string),
    }
}

#[test]
fn duplicate_targets_after_the_first_claim_are_conflicts() {
    let out = flag_duplicates(vec![
        entry(1, "/n/a.mkv", None),
        entry(2, "/n/a.mkv", None),
        entry(3, "/n/b.mkv", Some("file is missing")),
        entry(4, "/n/b.mkv", None),
        entry(5, "/n/a.mkv", Some("target exists: /n/a.mkv")),
    ]);
    let conflicts: Vec<Option<&str>> = out.iter().map(|e| e.conflict.as_deref()).collect();
    assert_eq!(
        conflicts,
        vec![
            None,
            Some("duplicate target within plan"),
            Some("file is missing"),
            None,
            Some("target exists: /n/a.mkv"),
        ]
    );
}

#[test]
fn plan_entries_record_their_conflict() {
    assert_eq!(rename_entry(1, "/a", "/b", true, true).conflict.as_deref(), Some("file is missing"));
    assert_eq!(rename_entry(1, "/a", "/b", false, true).conflict.as_deref(), Some("target exists: /b"));
    assert_eq!(rename_entry(1, "/a", "/b", false, false).conflict, None);
}

#[test]
fn renames_pin_the_new_name_and_undo_never_overwrites() {
    let o = pin_override("/n/Show - S00E02.mkv", "Show", 0, 2);
    assert_eq!((o.kind.as_str(), o.source.as_str(), o.season, o.number), ("special", "rename", 0, 2));
    assert_eq!(pin_override("/n/x.mkv", "Show", 1, 2).kind, "episode");
    assert_eq!(skip_note("/a.mkv", "gone"), "/a.mkv: gone");
    assert_eq!(undo_step(true, false), UndoStep::Retire);
    assert_eq!(undo_step(true, true), UndoStep::Occupied);
    assert_eq!(undo_step(false, false), UndoStep::Gone);
    assert_eq!(undo_step(false, true), UndoStep::MoveBack);
}

#[test]
fn videos_are_known_extensions_in_any_case() {
    for p in ["/a/b.mkv", "/a/b.MP4", "x.webm", "x.ts", "x.M4V", "x.avi", "x.mov"] {
        assert!(is_video(p), "{p}");
    }
    for p in ["/a/b.srt", "/a/b", "/a/.mkv", "x.mkv.part"] {
        assert!(!is_video(p), "{p}");
    }
}

#[test]
fn unreadable_roots_do_not_drive_missing_detection() {
    assert!(root_unreadable(false, 0, 0));
    assert!(root_unreadable(true, 0, 3));
    assert!(!root_unreadable(true, 0, 0));
    assert!(!root_unreadable(true, 4, 3));
}

fn ov(kind: &str) -> ParseOverride {
    ParseOverride {
        path: "/lib/x.mkv".into(),
        title: "Fixed".into(),
        season: 2,
        number: 9,
        kind: kind.into(),
        source: "user".into(),
    }
}

#[test]
fn overrides_outrank_the_parser_and_ignore_skips() {
    let stem = "[SubsPlease] Frieren - 05 (1080p) [A1B2C3D4]";
    assert_eq!(parse_for_scan(Some(ov("ignore")), stem, &[]), FileParse::Ignored);
    match parse_for_scan(Some(ov("episode")), stem, &[]) {
        FileParse::Parsed { name, low_confidence } => {
            assert!(!low_confidence);
            assert_eq!(
                name,
                ParsedName {
                    title: "Fixed".into(),
                    season: 2,
                    episode: 9,
                    release_group: Some("SubsPlease".into()),
                    resolution: Some("1080p".into()),
                    crc: Some("A1B2C3D4".into()),
                }
            );
        }
        other => panic!("{other:?}"),
    }
    match parse_for_scan(None, stem, &[]) {
        FileParse::Parsed { name, .. } => assert_eq!((name.title.as_str(), name.episode), ("Frieren", 5)),
        other => panic!("{other:?}"),
    }
}

#[test]
fn statuses_round_trip_through_their_text() {
    for s in [EpisodeStatus::Unplayed, EpisodeStatus::Playing, EpisodeStatus::Played, EpisodeStatus::Missing] {
        assert_eq!(EpisodeStatus::parse(s.as_str()), Some(s));
    }
    assert_eq!(EpisodeStatus::parse("watched"), None);
}

#[test]
fn sort_orders_fall_back_to_the_title() {
    assert_eq!(ShowSort::default(), ShowSort::Title);
    assert_eq!(ShowSort::Title.order_by("t"), "t COLLATE NOCASE ASC");
    assert_eq!(ShowSort::RecentlyAdded.order_by("t"), "s.created_at DESC, t COLLATE NOCASE ASC");
    assert!(ShowSort::Unwatched.order_by("t").ends_with(") DESC, t COLLATE NOCASE ASC"));
}

#[test]
fn like_patterns_match_literally() {
    assert_eq!(escape_like("100%_a\\b"), "100\\%\\_a\\\\b");
    assert_eq!(escape_like("plain"), "plain");
    assert_eq!(display_title_sql(), "COALESCE(user_title_override, canonical_title, parsed_title)");
}

#[test]
fn errors_read_as_kind_and_message() {
    assert_eq!(AppError::Parse("bad".into()).message(), "parse: bad");
    assert_eq!(AppError::Player("busy".into()).message(), "player: busy");
    assert_eq!(AppError::Io("x".into()).message(), "io: x");
}

#[test]
fn undo_and_rollback_notes() {
    assert_eq!(
        undo_note(UndoStep::Occupied, "/a.mkv", "/b.mkv").as_deref(),
        Some("/a.mkv: a different file already occupies the original name")
    );
    assert_eq!(undo_note(UndoStep::Gone, "/a.mkv", "/b.mkv").as_deref(), Some("/b.mkv: file no longer exists"));
    assert_eq!(undo_note(UndoStep::Retire, "/a.mkv", "/b.mkv"), None);
    assert_eq!(undo_note(UndoStep::MoveBack, "/a.mkv", "/b.mkv"), None);
    assert_eq!(rollback_note("/a.mkv", "db: locked", true), "/a.mkv: db: locked (rolled back)");
    assert_eq!(
        rollback_note("/a.mkv", "db: locked", false),
        "/a.mkv: db: locked (COULD NOT ROLL BACK, file is at the new name)"
    );
}

#[test]
fn scan_tally_counts_each_outcome() {
    let mut scan = root_scan_start(42, 2, false);
    assert_eq!((scan.at, scan.errors, scan.readable, scan.files_seen), (42, 2, true, 0));
    let mut summary = ScanSummary::default();
    let outcomes = [
        (FileOutcome::Added, true),
        (FileOutcome::Added, true),
        (FileOutcome::Updated, true),
        (FileOutcome::Ignored, true),
        (FileOutcome::StoreFailed, true),
        (FileOutcome::Unparseable, false),
        (FileOutcome::BadPath, false),
    ];
    for (o, seen) in outcomes {
        assert_eq!(tally_file(&mut scan, &mut summary, o), seen, "{o:?}");
    }
    assert_eq!((scan.files_seen, scan.added, scan.updated, scan.errors), (7, 2, 1, 5));
    assert_eq!((summary.files_seen, summary.episodes_added, summary.episodes_updated), (7, 2, 1));
    note_missing(&mut scan, &mut summary, 3);
    assert_eq!(scan.missing, 3);
    assert_eq!(summary.episodes_missing, 3);
}

#[test]
fn unreadable_roots_are_never_swept() {
    let bad = root_scan_start(1, 4, true);
    assert_eq!((bad.errors, bad.readable), (5, false));
    let good = root_scan_start(1, 0, false);
    let scans: Vec<RootScan> = vec![good.clone(), bad.clone(), good.clone(), bad];
    assert_eq!(roots_to_sweep(&scans), vec![0, 2]);
}

#[test]
fn unreadable_root_note_names_the_root() {
    assert_eq!(
        unreadable_root_note("/mnt/nas/anime"),
        "root is unreadable, its episodes were left untouched: /mnt/nas/anime"
    );
}
