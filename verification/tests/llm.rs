use anime_manager::error::AppError;
use anime_manager::llm::{
    check_inspection, episode_label, inspection_json, inspection_prompt, relative_to_roots,
    resolve_decision, AssistQueue, FileAction, FileDecision, FileGuess, FolderInspection, LlmSettings,
    DEFAULT_BASE_URL, DEFAULT_DELAY_MS, DEFAULT_MODEL, MAX_FILES_PER_FOLDER,
};
use anime_manager::models::Root;

#[test]
fn unconfigured_when_key_missing_or_blank() {
    assert!(!LlmSettings::with("http://x", None, "m".into()).configured());
    assert!(!LlmSettings::with("http://x", Some("  ".into()), "m".into()).configured());
    assert!(LlmSettings::with("http://x", Some("k".into()), "m".into()).configured());
    let l = LlmSettings::from_settings(None, None, None, None);
    assert!(!l.configured());
    assert_eq!(l.model, DEFAULT_MODEL);
    let l = LlmSettings::from_settings(None, Some("nemotron-3.5-lightning-free".into()), None, None);
    assert_eq!(l.model, "nemotron-3.5-lightning-free");
}

#[test]
fn settings_fall_back_to_defaults_and_trim_the_endpoint() {
    let l = LlmSettings::from_settings(Some("k".into()), Some(" ".into()), Some("http://h/v1//".into()), Some("25".into()));
    assert_eq!(l.api_key.as_deref(), Some("k"));
    assert_eq!(l.model, DEFAULT_MODEL);
    assert_eq!(l.base_url, "http://h/v1");
    assert_eq!(l.delay_ms, 25);
    let d = LlmSettings::from_settings(None, None, None, Some("soon".into()));
    assert_eq!(d.base_url, DEFAULT_BASE_URL);
    assert_eq!(d.delay_ms, DEFAULT_DELAY_MS);
}

#[test]
fn the_json_object_is_found_inside_fences_and_prose() {
    let plain = r#"{"title":"Sekirei","season":1,"files":[],"notes":"ok"}"#;
    assert_eq!(inspection_json(plain).unwrap(), plain);
    let fenced = format!("Sure! Here you go:\n```json\n{plain}\n```\nLet me know.");
    assert_eq!(inspection_json(&fenced).unwrap(), plain);
    let only_fence = format!("```json\n{plain}\n```");
    assert_eq!(inspection_json(&only_fence).unwrap(), plain);
    assert_eq!(
        inspection_json("no json here"),
        Err(AppError::Parse("LLM reply contained no JSON object".into()))
    );
    assert!(matches!(inspection_json("} backwards {"), Err(AppError::Parse(_))));
}

#[test]
fn an_inspection_needs_a_title() {
    let i = FolderInspection { title: "  ".into(), season: None, files: vec![], notes: String::new() };
    assert_eq!(check_inspection(i), Err(AppError::Parse("LLM reply had an empty title".into())));
    let ok = FolderInspection { title: "T".into(), season: Some(1), files: vec![], notes: String::new() };
    assert_eq!(check_inspection(ok.clone()), Ok(ok));
}

#[test]
fn the_prompt_lists_files_with_guesses_and_caps_them() {
    let files = vec![
        FileGuess { name: "01.mkv".into(), guess: "T S01E01".into() },
        FileGuess { name: "02.mkv".into(), guess: "T S01E02".into() },
    ];
    assert_eq!(
        inspection_prompt("T", &files),
        "Folder (relative to the library root): T\n\nFiles (2):\n- 01.mkv\n    parser guess: T S01E01\n- 02.mkv\n    parser guess: T S01E02\n"
    );
    let many: Vec<FileGuess> = (0..MAX_FILES_PER_FOLDER + 3)
        .map(|i| FileGuess { name: format!("{i}.mkv"), guess: "g".into() })
        .collect();
    let p = inspection_prompt("big", &many);
    assert!(p.contains("Files (203):"), "{p}");
    assert!(p.ends_with("... and 3 more files not shown; decide them by the same pattern.\n"), "{p}");
    assert!(p.contains("- 199.mkv\n") && !p.contains("- 200.mkv\n"));
}

fn decision(kind: &str, season: Option<u32>, episode: Option<u32>, title: Option<&str>) -> FileDecision {
    FileDecision { name: "f.mkv".into(), kind: kind.into(), season, episode, title: title.map(str::to_string) }
}

#[test]
fn verdicts_are_applied_with_folder_fallbacks() {
    assert_eq!(resolve_decision(&decision("ignore", None, None, None), "T", Some(2), 7), FileAction::Ignore);
    assert_eq!(
        resolve_decision(&decision("special", Some(3), Some(1), Some(" OVA ")), "T", Some(2), 7),
        FileAction::Assign { kind: "special".into(), title: "OVA".into(), season: 0, number: 1 }
    );
    assert_eq!(
        resolve_decision(&decision("movie", None, None, Some(" ")), "T", None, 7),
        FileAction::Assign { kind: "movie".into(), title: "T".into(), season: 1, number: 1 }
    );
    assert_eq!(
        resolve_decision(&decision("weird", None, None, None), "T", Some(2), 7),
        FileAction::Assign { kind: "episode".into(), title: "T".into(), season: 2, number: 7 }
    );
    assert_eq!(episode_label("T", 2, 7), "T S2E7");
}

fn root(path: &str) -> Root {
    Root { id: 1, path: path.into(), added_at: 0, last_scan: None }
}

#[test]
fn folders_are_shown_relative_to_the_longest_root() {
    let roots = vec![root("/lib/"), root("/lib/anime")];
    assert_eq!(relative_to_roots(&roots, "/lib/anime/Show"), "Show");
    assert_eq!(relative_to_roots(&roots, "/lib/other/Show"), "other/Show");
    assert_eq!(relative_to_roots(&roots, "/elsewhere/Show"), "/elsewhere/Show");
}

#[test]
fn queue_drains_everything_dedupes_and_reports_progress() {
    let mut q = AssistQueue::new();
    let n = 40;
    let folders: Vec<String> = (0..n).map(|i| format!("/lib/Show{i}")).collect();
    assert_eq!(q.enqueue(folders.clone()), n);
    assert_eq!(q.enqueue(folders.clone()), 0, "duplicates are not re-queued");
    assert_eq!(q.enqueue(vec!["/lib/nothing-here".to_string()]), 1);
    assert!(q.try_start());
    assert!(!q.try_start(), "second worker refused while running");
    let mut seen = Vec::new();
    while let Some(f) = q.pop() {
        seen.push(f);
        q.record_done();
        let p = q.progress();
        assert_eq!(p.total, n + 1);
        assert_eq!(p.done, seen.len());
    }
    assert_eq!(seen.len(), n + 1);
    assert_eq!(seen[0], "/lib/Show0");
    assert_eq!(seen[n], "/lib/nothing-here");
    q.finish();
    assert!(!q.is_running());
    assert_eq!(q.progress().total, 0);
}

#[test]
fn enqueue_during_a_run_extends_it() {
    let mut q = AssistQueue::default();
    assert_eq!(q.enqueue(vec!["a".into(), "a".into(), "b".into()]), 2);
    assert!(q.try_start());
    assert_eq!(q.pop().as_deref(), Some("a"));
    q.record_done();
    assert_eq!(q.enqueue(vec!["b".into(), "c".into()]), 1);
    assert_eq!(q.progress().total, 3);
    assert_eq!(q.pop().as_deref(), Some("b"));
    assert_eq!(q.pop().as_deref(), Some("c"));
    assert_eq!(q.pop(), None);
}
