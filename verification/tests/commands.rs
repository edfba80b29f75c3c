use anime_manager::commands::{
    apply_settings_defaults, assist_on_scan, check_setting, default_dlna_name, device_uuid,
    dlna_options_plan, dlna_port_from_setting, dlna_probe_end, play_guard, settings_view,
    validate_dlna_options, OptionsPlan, DEFAULT_AUTO_SCAN_MINS, DLNA_DEFAULT_PORT,
    SETTING_AUTO_SCAN_MINS, SETTING_DLNA_NAME, SETTING_DLNA_PORT, SETTING_DLNA_UUID,
};
use anime_manager::error::AppError;
use anime_manager::http::{
    after_status, after_transport_error, is_retryable, provider_wait_ms, retry_after_ms, retry_wait_ms,
};
use anime_manager::models::EpisodeStatus;
use anime_manager::player::{
    fullscreen_reply, is_bool_reply, launch_error, mpv_state_args, untracked_error, player_backend, player_binary, untracked_status,
    vlc_state_args, window_reading, Player, PlayerBackend, SavedPlayerState,
};

fn get<'a>(m: &'a [(String, String)], k: &str) -> Option<&'a str> {
    m.iter().find(|(key, _)| key == k).map(|(_, v)| v.as_str())
}

// ---------------------------------------------------------------------------
// commands
// ---------------------------------------------------------------------------

#[test]
fn dlna_options_reject_blank_name_and_zero_port() {
    assert!(validate_dlna_options("", 28987).is_err());
    assert!(validate_dlna_options("   ", 28987).is_err());
    assert!(validate_dlna_options("Anime", 0).is_err());
    let (name, port) = validate_dlna_options("  Anime  ", 28987).unwrap();
    assert_eq!(name, "Anime");
    assert_eq!(port, 28987);
}

#[test]
fn auto_scan_default_applies_when_unset_and_keeps_stored_value() {
    let empty = apply_settings_defaults(Vec::new());
    assert_eq!(get(&empty, SETTING_AUTO_SCAN_MINS), Some(DEFAULT_AUTO_SCAN_MINS));
    let stored = vec![
        (SETTING_AUTO_SCAN_MINS.to_string(), "0".to_string()),
        ("mpv_path".to_string(), "custom".to_string()),
    ];
    let out = apply_settings_defaults(stored);
    assert_eq!(get(&out, SETTING_AUTO_SCAN_MINS), Some("0"));
    assert_eq!(get(&out, "mpv_path"), Some("custom"));
}

#[test]
fn dlna_port_falls_back_to_default() {
    assert_eq!(dlna_port_from_setting(None), DLNA_DEFAULT_PORT);
    assert_eq!(dlna_port_from_setting(Some("1234")), 1234);
    assert_eq!(dlna_port_from_setting(Some("junk")), DLNA_DEFAULT_PORT);
    assert_eq!(dlna_port_from_setting(Some("0")), DLNA_DEFAULT_PORT);
    assert_eq!(dlna_port_from_setting(Some("70000")), DLNA_DEFAULT_PORT);
}

#[test]
fn dlna_uuid_is_minted_once_and_kept() {
    let (first, fresh) = device_uuid(None);
    assert!(fresh);
    assert!(first.starts_with("uuid:"));
    assert_eq!(first.len(), 41);
    assert_eq!(&first[19..20], "4");
    let (again, minted) = device_uuid(Some(first.clone()));
    assert_eq!(again, first);
    assert!(!minted);
    let (other, minted) = device_uuid(Some("  ".into()));
    assert!(minted && other != first);
}

#[test]
fn dlna_names_probe_ranges_and_restart_plans() {
    assert_eq!(default_dlna_name(Some(" box "), Some("ignored")), "box Anime");
    assert_eq!(default_dlna_name(Some(""), Some("etc-host\n")), "etc-host Anime");
    assert_eq!(default_dlna_name(None, None), "Anime");
    assert_eq!(dlna_probe_end(28987), 29007);
    assert_eq!(dlna_probe_end(65530), 65535);
    assert_eq!(dlna_options_plan(false, 1, 2), OptionsPlan::Store);
    assert_eq!(dlna_options_plan(true, 2, 2), OptionsPlan::RestartInPlace);
    assert_eq!(dlna_options_plan(true, 1, 2), OptionsPlan::Rebind);
}

#[test]
fn settings_writes_are_checked() {
    assert_eq!(check_setting(SETTING_DLNA_NAME, " "), Err(AppError::Parse("DLNA name cannot be blank".into())));
    assert_eq!(check_setting(SETTING_DLNA_PORT, "0"), Err(AppError::Parse("DLNA port must be 1-65535".into())));
    assert_eq!(check_setting(SETTING_DLNA_PORT, "x"), Err(AppError::Parse("DLNA port must be 1-65535".into())));
    assert_eq!(check_setting(SETTING_DLNA_PORT, "8200"), Ok(true));
    assert_eq!(check_setting(SETTING_DLNA_UUID, ""), Ok(false));
    assert_eq!(check_setting("mpv_path", ""), Ok(true));
}

#[test]
fn the_settings_page_fills_defaults() {
    let stored = vec![("mpv_path".to_string(), "/opt/mpv".to_string())];
    let v = settings_view("0.85", &stored, "box Anime");
    assert_eq!(get(&v, "played_threshold"), Some("0.85"));
    assert_eq!(get(&v, "mpv_path"), Some("/opt/mpv"));
    assert_eq!(get(&v, "llm_api_key"), Some(""));
    assert_eq!(get(&v, "llm_assist_on_scan"), Some("true"));
    assert_eq!(get(&v, SETTING_DLNA_NAME), Some("box Anime"));
    assert_eq!(get(&v, SETTING_DLNA_PORT), Some("28987"));
    assert_eq!(get(&v, SETTING_AUTO_SCAN_MINS), Some("15"));
    assert!(assist_on_scan(None) && assist_on_scan(Some("true")) && !assist_on_scan(Some("false")));
}

#[test]
fn only_one_episode_plays_at_a_time() {
    assert!(play_guard(None).is_ok());
    assert_eq!(play_guard(Some(3)), Err(AppError::Player("another episode is already playing".into())));
    let mut p = Player::new();
    assert!(p.claim(7).is_ok());
    assert_eq!(p.claim(8), Err(AppError::Player("episode 7 is already playing".into())));
    assert_eq!(p.current(), Some(7));
    p.release();
    assert_eq!(p.current(), None);
    assert!(p.claim(8).is_ok());
}

// ---------------------------------------------------------------------------
// player
// ---------------------------------------------------------------------------

fn state(volume: f64, w: Option<i64>, h: Option<i64>, maximized: bool, fullscreen: bool) -> SavedPlayerState {
    SavedPlayerState {
        volume: volume.to_string(),
        window_width: w,
        window_height: h,
        window_maximized: maximized,
        window_fullscreen: fullscreen,
    }
}

/// VLC's volume argument is in its 0-512 steps: 37.5% is 96 steps, 100% is 256, 50% is 128.
fn vlc_state(steps: i64, w: Option<i64>, h: Option<i64>, maximized: bool, fullscreen: bool) -> SavedPlayerState {
    SavedPlayerState {
        volume: steps.to_string(),
        window_width: w,
        window_height: h,
        window_maximized: maximized,
        window_fullscreen: fullscreen,
    }
}

#[test]
fn mpv_state_args_are_empty_when_nothing_recorded() {
    assert!(mpv_state_args(None).is_empty());
}

#[test]
fn mpv_state_args_restore_volume_and_geometry() {
    let s = state(42.5, Some(1600), Some(900), false, false);
    assert_eq!(mpv_state_args(Some(&s)), vec!["--volume=42.5", "--geometry=1600x900"]);
}

#[test]
fn mpv_state_args_omit_geometry_when_one_dimension_missing() {
    assert_eq!(mpv_state_args(Some(&state(50.0, Some(800), None, false, false))), vec!["--volume=50"]);
    assert_eq!(mpv_state_args(Some(&state(50.0, None, Some(600), false, false))), vec!["--volume=50"]);
}

#[test]
fn mpv_state_args_prefer_maximized_over_geometry() {
    let s = state(100.0, Some(800), Some(600), true, false);
    assert_eq!(mpv_state_args(Some(&s)), vec!["--volume=100", "--window-maximized=yes"]);
}

#[test]
fn mpv_state_args_prefer_fullscreen_over_maximized() {
    let s = state(100.0, None, None, true, true);
    assert_eq!(mpv_state_args(Some(&s)), vec!["--volume=100", "--fullscreen=yes"]);
}

#[test]
fn player_backend_defaults_to_mpv_and_parses_vlc() {
    assert_eq!(player_backend(None), PlayerBackend::Mpv);
    assert_eq!(player_backend(Some("vlc")), PlayerBackend::Vlc);
    assert_eq!(player_backend(Some("VLC")), PlayerBackend::Vlc);
    assert_eq!(player_backend(Some("junk")), PlayerBackend::Mpv);
    assert_eq!(PlayerBackend::parse(""), PlayerBackend::Mpv);
    assert_eq!(PlayerBackend::parse("   "), PlayerBackend::Mpv);
    assert_eq!(PlayerBackend::parse(" vlc "), PlayerBackend::Vlc);
    assert_eq!(PlayerBackend::Vlc.as_str(), "vlc");
}

#[test]
fn vlc_binary_defaults_to_vlc_and_honours_setting() {
    assert_eq!(player_binary(None, "vlc"), "vlc");
    assert_eq!(player_binary(Some("/usr/bin/vlc".into()), "vlc"), "/usr/bin/vlc");
    assert_eq!(player_binary(Some(String::new()), "vlc"), "vlc");
}

#[test]
fn vlc_state_args_restore_volume_and_window() {
    let s = vlc_state(96, Some(1600), Some(900), false, false);
    let args = vlc_state_args(Some(&s));
    assert!(args.contains(&"--volume=96".to_string()), "{args:?}");
    assert!(args.contains(&"--width=1600".to_string()), "{args:?}");
    assert!(args.contains(&"--height=900".to_string()), "{args:?}");
}

#[test]
fn vlc_state_args_prefer_fullscreen_over_maximized() {
    let s = vlc_state(256, None, None, true, true);
    let args = vlc_state_args(Some(&s));
    assert!(args.contains(&"--fullscreen".to_string()), "{args:?}");
    assert!(!args.iter().any(|a| a.contains("maximized")), "{args:?}");
}

#[test]
fn vlc_state_args_emits_maximized_flag() {
    let s = vlc_state(256, None, None, true, false);
    let args = vlc_state_args(Some(&s));
    assert!(args.contains(&"--qt-maximized".to_string()), "{args:?}");
    assert!(!args.iter().any(|a| a.contains("--width")), "{args:?}");
    assert!(vlc_state_args(None).is_empty());
    assert_eq!(vlc_state_args(Some(&vlc_state(128, Some(800), None, false, false))), vec!["--volume=128"]);
}

#[test]
fn player_replies_and_readings() {
    assert!(is_bool_reply(" ON ") && is_bool_reply("false") && is_bool_reply("1"));
    assert!(!is_bool_reply("maybe"));
    assert_eq!(fullscreen_reply("True"), Some(true));
    assert_eq!(fullscreen_reply("0"), Some(false));
    assert_eq!(fullscreen_reply("bogus"), None);
    assert_eq!(untracked_status(EpisodeStatus::Playing), EpisodeStatus::Unplayed);
    assert_eq!(untracked_status(EpisodeStatus::Played), EpisodeStatus::Played);
    assert_eq!(window_reading(Some(false), Some(1600), Some(900)), Some((1600, 900)));
    assert_eq!(window_reading(Some(true), Some(1600), Some(900)), None);
    assert_eq!(window_reading(None, Some(1600), Some(900)), None);
    assert_eq!(window_reading(Some(false), Some(0), Some(900)), None);
    assert_eq!(window_reading(Some(false), Some(1600), Some(-1)), None);
}

// ---------------------------------------------------------------------------
// HTTP retries
// ---------------------------------------------------------------------------

#[test]
fn retries_follow_status_retry_after_and_the_ladder() {
    assert!(is_retryable(429) && is_retryable(500) && is_retryable(599));
    assert!(!is_retryable(404) && !is_retryable(600) && !is_retryable(200));
    assert_eq!(retry_after_ms(Some("2")), Some(2000));
    assert_eq!(retry_after_ms(Some("120")), Some(30000));
    assert_eq!(retry_after_ms(Some("soon")), None);
    assert_eq!(retry_after_ms(None), None);
    assert_eq!(after_status(429, 1, 3, Some("5")), Some(5000));
    assert_eq!(after_status(404, 1, 3, None), None);
    assert_eq!(after_status(503, 3, 3, None), None);
    let w = after_status(503, 2, 3, None).unwrap();
    assert!((800..900).contains(&w), "{w}");
    assert_eq!(retry_wait_ms(1, 1234), 234);
    assert_eq!(retry_wait_ms(2, 7), 807);
    assert!(after_transport_error(true, true, 1, 3));
    assert!(!after_transport_error(true, false, 1, 3));
    assert!(!after_transport_error(false, true, 1, 3));
    assert!(!after_transport_error(true, true, 3, 3));
}

#[test]
fn provider_waits_double_per_attempt_unless_asked_longer() {
    assert_eq!(provider_wait_ms(500, 1, None), 500);
    assert_eq!(provider_wait_ms(500, 3, None), 2000);
    assert_eq!(provider_wait_ms(500, 2, Some("3")), 3000);
    assert_eq!(provider_wait_ms(500, 4, Some("1")), 4000);
    assert_eq!(provider_wait_ms(500, 2, Some("later")), 1000);
}

#[test]
fn player_errors_name_the_backend() {
    assert_eq!(
        launch_error(PlayerBackend::Vlc, "No such file or directory"),
        AppError::Player("failed to launch vlc: No such file or directory".into())
    );
    assert_eq!(
        untracked_error(PlayerBackend::Mpv),
        AppError::Player(
            "could not reach mpv's control socket, so playback position was not tracked; this episode's progress is unchanged"
                .into()
        )
    );
}
