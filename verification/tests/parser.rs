use anime_manager::parser::{parse, parse_with_confidence, ParsedName};


fn p(stem: &str) -> ParsedName {
    parse(stem, &[]).expect(stem)
}
fn d(dir: &str) -> Vec<String> {
    vec![dir.to_string()]
}

#[test]
fn subsplease_style() {
    let r = p("[SubsPlease] Frieren - Beyond Journey's End - 05 (1080p) [A1B2C3D4]");
    assert_eq!(r.title, "Frieren - Beyond Journey's End");
    assert_eq!((r.season, r.episode), (1, 5));
    assert_eq!(r.release_group.as_deref(), Some("SubsPlease"));
    assert_eq!(r.resolution.as_deref(), Some("1080p"));
    assert_eq!(r.crc.as_deref(), Some("A1B2C3D4"));
}

#[test]
fn sxxexx() {
    let r = p("Mob.Psycho.100.S02E07.1080p.WEB.x264");
    assert_eq!(r.title, "Mob Psycho 100");
    assert_eq!((r.season, r.episode), (2, 7));
    assert_eq!(r.resolution.as_deref(), Some("1080p"));
}

#[test]
fn nxnn() {
    let r = p("Spy x Family 2x03");
    assert_eq!(r.title, "Spy x Family");
    assert_eq!((r.season, r.episode), (2, 3));
}

#[test]
fn second_season_suffix() {
    let r = p("[Erai-raws] Jujutsu Kaisen 2nd Season - 12 [1080p]");
    assert_eq!(r.title, "Jujutsu Kaisen");
    assert_eq!((r.season, r.episode), (2, 12));
}

#[test]
fn season_word_suffix() {
    let r = p("Vinland Saga Season 2 - 04");
    assert_eq!(r.title, "Vinland Saga");
    assert_eq!((r.season, r.episode), (2, 4));
}

#[test]
fn part_suffix() {
    let r = p("Attack on Titan Final Season Part 2 - 03");
    assert_eq!(r.title, "Attack on Titan Final Season");
    assert_eq!((r.season, r.episode), (2, 3));
}

#[test]
fn roman_numeral_suffix() {
    let r = p("Oregairu III - 02");
    assert_eq!(r.title, "Oregairu");
    assert_eq!((r.season, r.episode), (3, 2));
}

#[test]
fn version_suffix_dropped() {
    let r = p("[Group] Show - 08v2 [720p]");
    assert_eq!((r.season, r.episode), (1, 8));
    assert_eq!(r.resolution.as_deref(), Some("720p"));
}

#[test]
fn ep_prefix() {
    assert_eq!(p("Cowboy Bebop Ep 11").episode, 11);
    assert_eq!(p("Cowboy Bebop Ep.11").episode, 11);
    assert_eq!(p("Cowboy Bebop E11").episode, 11);
}

#[test]
fn japanese_episode_marker() {
    let r = p("葬送のフリーレン 第05話");
    assert_eq!(r.episode, 5);
    assert_eq!(r.title, "葬送のフリーレン");
}

#[test]
fn season_from_parent_dir() {
    let r = parse("Show - 03", &d("Season 3")).unwrap();
    assert_eq!(r.season, 3);
    let r = parse("Show - 03", &d("S4")).unwrap();
    assert_eq!(r.season, 4);
    let r = parse("Show - 03", &d("Show Name")).unwrap();
    assert_eq!(r.season, 1);
}

#[test]
fn explicit_season_beats_parent_dir() {
    let r = parse("Show S02E03", &d("Season 5")).unwrap();
    assert_eq!(r.season, 2);
}

#[test]
fn trailing_number_fallback() {
    let r = p("Some_Show_07");
    assert_eq!(r.title, "Some Show");
    assert_eq!(r.episode, 7);
}

#[test]
fn specials_go_to_season_zero() {
    assert_eq!(p("[Group] Show - NCOP1 [1080p]").season, 0);
    assert_eq!(p("[Group] Show - OVA 02").season, 0);
    assert_eq!(p("Show Special 1").season, 0);
}

#[test]
fn resolution_wxh() {
    let r = p("Show - 01 (1920x1080)");
    assert_eq!(r.resolution.as_deref(), Some("1920x1080"));
}

#[test]
fn title_only_file_is_a_single_episode_show() {
    let r = p("K-ON! The Movie");
    assert_eq!(r.title, "K-ON! The Movie");
    assert_eq!((r.season, r.episode), (1, 1));
    let r = p("[B-Bass] Seitokai Yakuindomo The Movie [2EC03FB6]");
    assert_eq!(r.title, "Seitokai Yakuindomo The Movie");
    assert_eq!(r.crc.as_deref(), Some("2EC03FB6"));
    assert!(parse("sample", &[]).is_none());
    assert!(parse("random_video", &d("")).is_some());
}

#[test]
fn underscores_and_dots_to_spaces() {
    assert_eq!(p("Made_in_Abyss_-_04").title, "Made in Abyss");
    assert_eq!(p("Made.in.Abyss.-.04").title, "Made in Abyss");
}

#[test]
fn title_with_number_not_treated_as_episode() {
    let r = p("[Group] Steins;Gate 0 - 04 [1080p]");
    assert_eq!(r.title, "Steins;Gate 0");
    assert_eq!(r.episode, 4);
}

#[test]
fn hyphen_separated_with_group_crc_lowercase() {
    let r = p("[hc] Bocchi the Rock! - 01 [abcdef12]");
    assert_eq!(r.crc.as_deref(), Some("abcdef12"));
    assert_eq!(r.title, "Bocchi the Rock!");
}

#[test]
fn three_digit_episode() {
    assert_eq!(p("One Piece - 1071").episode, 1071);
}

#[test]
fn special_marker_must_be_a_whole_word() {
    let r = p("Extraordinary You - 04");
    assert_eq!(r.title, "Extraordinary You");
    assert_eq!((r.season, r.episode), (1, 4));
}

// --- real-world shapes from a 3,600-file collection ---

#[test]
fn underscore_separated_dash_episode() {
    let r = p("[Hatsuyuki]_Kotoura-san_-_06_[BD][1920x1080][D2B10246]");
    assert_eq!(r.title, "Kotoura-san");
    assert_eq!((r.season, r.episode), (1, 6));
    assert_eq!(r.release_group.as_deref(), Some("Hatsuyuki"));
    let r = p("[DB]Gekkan Shoujo Nozaki-kun_-_01_(Dual Audio_10bit_BD1080p_x265)");
    assert_eq!(r.title, "Gekkan Shoujo Nozaki-kun");
    assert_eq!(r.episode, 1);
    let r = p("(Hi10)_High_School_DxD_BorN_-_09_(BD_1080p)_(FFF)");
    assert_eq!(r.title, "High School DxD BorN");
    assert_eq!(r.episode, 9);
}

#[test]
fn episode_word() {
    let r = p("Azumanga Daioh - Episode 01 - Miss Yukari");
    assert_eq!(r.title, "Azumanga Daioh");
    assert_eq!((r.season, r.episode), (1, 1));
    let r = p("[AniDL] Manyuu Hikenchou - Episode 03 [720p BD][English Subbed]");
    assert_eq!(r.title, "Manyuu Hikenchou");
    assert_eq!(r.episode, 3);
    let r =
        p("[bonkai77].Space.Dandy.Episode.01.Live.with.the.Flow,.Baby.1080p.Dual.Audio.Bluray");
    assert_eq!(r.title, "Space Dandy");
    assert_eq!(r.episode, 1);
}

#[test]
fn ep_prefix_with_underscores() {
    let r = p("[Exiled-Destiny]_Negima_Ep07_(D568C690)");
    assert_eq!(r.title, "Negima");
    assert_eq!(r.episode, 7);
    assert_eq!(r.crc.as_deref(), Some("D568C690"));
    let r = p("[~AA~]_Kashimashi_-_Girl_Meets_Girl_ep08_[ABC5136F]");
    assert_eq!(r.title, "Kashimashi - Girl Meets Girl");
    assert_eq!(r.episode, 8);
}

#[test]
fn trailing_number_with_underscore_after() {
    let r = p("[Coalgirls]_Aikatsu_001_(1280x720_Blu-ray_FLAC)_[556A4483]");
    assert_eq!(r.title, "Aikatsu");
    assert_eq!(r.episode, 1);
    assert_eq!(r.resolution.as_deref(), Some("1280x720"));
}

#[test]
fn stem_is_only_episode_uses_parent_dir_for_title() {
    let r = parse(
        "S01E07-Thus, the Sisters Trade Places [F29C75F9]",
        &d("Makina-san's a Love Bot S01 1080p Dual Audio WEBRip AAC x265-EMBER"),
    )
    .unwrap();
    assert_eq!(r.title, "Makina-san's a Love Bot");
    assert_eq!((r.season, r.episode), (1, 7));
    let r = parse(
        "01- He woke up as a Bagel Girl [darkflux]",
        &d("Bagel Girl"),
    )
    .unwrap();
    assert_eq!(r.title, "Bagel Girl");
    assert_eq!(r.episode, 1);
    let r = parse(
        "06 - Operation Seduce Sang Woo [darkflux]",
        &d("Bagel Girl"),
    )
    .unwrap();
    assert_eq!(r.episode, 6);
    let r = parse("05_The Strange Tale of Maison Izumo_KDG", &d("Sekirei")).unwrap();
    assert_eq!(r.title, "Sekirei");
    assert_eq!(r.episode, 5);
    let r = parse(
        "[WBDP] 02 - Fever - Campaigning for Love [BD][1080p-FLAC][HEVC] [3B622F30]",
        &d("[WBDP] Yagate Kimi ni Naru [BD][1080p-FLAC][HEVC]"),
    )
    .unwrap();
    assert_eq!(r.title, "Yagate Kimi ni Naru");
    assert_eq!(r.episode, 2);
    assert_eq!(r.release_group.as_deref(), Some("WBDP"));
}

#[test]
fn empty_title_and_generic_parent_is_unparseable() {
    assert!(parse("NCED1", &d("Extra")).is_none());
    assert!(parse("NCED - 01", &d("NC")).is_none());
    assert!(parse("S01E02", &d("Season 1")).is_none());
    assert!(parse("Episode 4", &d("Extras")).is_none());
    assert!(parse("00_OVA_Two-Topic Gossip_KDG", &d("Season2_Pure Engagement")).is_none());
    assert!(parse("K-ON! The Movie", &d("The Movie")).is_some());
}

#[test]
fn mid_title_standalone_number() {
    let r = p(
        "Tamako Market 01 That Girl is the Cute Daughter of a Mochi Shop Owner (BD1080p AC3 10bit)",
    );
    assert_eq!(r.title, "Tamako Market");
    assert_eq!(r.episode, 1);
    let r = p(
        "[Underwater] Panty and Stocking with Garterbelt 13 - Bitch Girls - Bitch Girls 2 Bitch (BD 720p) [3A1C8DA9]",
    );
    assert_eq!(r.title, "Panty and Stocking with Garterbelt");
    assert_eq!(r.episode, 13);
}

#[test]
fn special_glued_to_season_marker() {
    let r = p("[Reza] Oreimo - S01OVA01");
    assert_eq!(r.title, "Oreimo");
    assert_eq!((r.season, r.episode), (0, 1));
    let r = p("[-__-'] Shakunetsu no Takkyuu Musume - SP1 [BD 720p] [D9848E2E]");
    assert_eq!(r.title, "Shakunetsu no Takkyuu Musume");
    assert_eq!((r.season, r.episode), (0, 1));
    let r = p("[DB]Gekkan Shoujo Nozaki-kun_-_NCED_(10bit_BD1080p_x265)");
    assert_eq!(r.title, "Gekkan Shoujo Nozaki-kun");
    assert_eq!(r.season, 0);
}

#[test]
fn special_word_in_an_episode_subtitle_is_not_a_special() {
    // The keyword sits in the episode's own subtitle, after the marker, so it must not
    // drag a real season-1 episode into the Specials tab.
    let r = p("Azumanga Daioh - Episode 08 - New Years Dream Special");
    assert_eq!(
        (r.title.as_str(), r.season, r.episode),
        ("Azumanga Daioh", 1, 8)
    );
    let r = p("Grand Blue Dreaming - 03 - The Extra Class");
    assert_eq!(
        (r.title.as_str(), r.season, r.episode),
        ("Grand Blue Dreaming", 1, 3)
    );
    let r = p("Bocchi the Rock - 07 - Live Special");
    assert_eq!(
        (r.title.as_str(), r.season, r.episode),
        ("Bocchi the Rock", 1, 7)
    );
    let r = p("Show - 12 - The Recap Job");
    assert_eq!((r.title.as_str(), r.season, r.episode), ("Show", 1, 12));
}

#[test]
fn titles_that_begin_with_a_special_keyword_survive() {
    // Truncating at the keyword used to empty these titles and drop the files entirely.
    let r = p("Special A - 01");
    assert_eq!((r.title.as_str(), r.season, r.episode), ("Special A", 1, 1));
    let r = p("Extra Olympia Kyklos - 03");
    assert_eq!(
        (r.title.as_str(), r.season, r.episode),
        ("Extra Olympia Kyklos", 1, 3)
    );
    let r = p("Preview Girls - 05");
    assert_eq!(
        (r.title.as_str(), r.season, r.episode),
        ("Preview Girls", 1, 5)
    );
    let r = p("OP-ED Collection - 02");
    assert_eq!(
        (r.title.as_str(), r.season, r.episode),
        ("OP-ED Collection", 1, 2)
    );
    // ...but a title that is nothing except the keyword really is a special.
    let dirs = vec!["NC".to_string(), "Show Name".to_string()];
    let r = parse("NCED - 03", &dirs).unwrap();
    assert_eq!((r.title.as_str(), r.season, r.episode), ("Show Name", 0, 3));
}

#[test]
fn years_are_never_episodes_in_any_branch() {
    for stem in [
        "Kimi no Na wa - 2016 - 1080p",
        "Akira - 1988",
        "Ghost in the Shell - 1995",
        "Show Ep 2016",
    ] {
        let r = parse_with_confidence(stem, &[]).expect(stem);
        assert!(
            r.name.episode < 1900,
            "{stem} parsed episode {}",
            r.name.episode
        );
        assert!(
            r.low_confidence,
            "{stem} must be flagged so the LLM safety net revisits it"
        );
    }
    // A genuine 4-digit episode number is still accepted.
    assert_eq!(p("Long Show - 1234").episode, 1234);
}

#[test]
fn year_is_not_an_episode_and_is_dropped_from_title() {
    let r =
        p("Akira (1988) [30th Anniversary Blu-ray] [1080p x265 HEVC 10bit 5.1 AAC][RecMan]");
    assert_eq!(r.title, "Akira");
    assert_eq!((r.season, r.episode), (1, 1));
    let r = p("Cosmic.Princess.Kaguya.2026.1080p.NF.WEB-DL.DUAL.DDP5.1.H.264-VARYG");
    assert_eq!(r.title, "Cosmic Princess Kaguya");
    assert_eq!((r.season, r.episode), (1, 1));
}

#[test]
fn title_from_grandparent_when_parent_is_a_season_folder() {
    let dirs = vec![
        "Season1".to_string(),
        "Sekirei Complete BDrip 1080p Dual-Audio x265".to_string(),
    ];
    let r = parse("05_The Strange Tale of Maison Izumo_KDG", &dirs).unwrap();
    assert_eq!(r.title, "Sekirei");
    assert_eq!((r.season, r.episode), (1, 5));
    let dirs = vec![
        "Season2_Pure Engagement".to_string(),
        "Sekirei Complete BDrip 1080p Dual-Audio x265".to_string(),
    ];
    let r = parse("01_Silent Omen_KDG", &dirs).unwrap();
    assert_eq!(r.title, "Sekirei");
    assert_eq!((r.season, r.episode), (2, 1));
    let r = parse("00_OVA_Two-Topic Gossip_KDG", &dirs).unwrap();
    assert_eq!((r.title.as_str(), r.season, r.episode), ("Sekirei", 0, 0));
    let dirs = vec![
        "NC".into(),
        "Extras".into(),
        "[KH] Why the Hell are You Here Teacher (BD 1080p) [Dual-Audio]".into(),
    ];
    let r = parse("NCED - 03", &dirs).unwrap();
    assert_eq!(
        (r.title.as_str(), r.season, r.episode),
        ("Why the Hell are You Here Teacher", 0, 3)
    );
    let dirs = vec!["Extra".into(), "S2".into(), "K-On!".into()];
    let r = parse("NCED2", &dirs).unwrap();
    assert_eq!((r.title.as_str(), r.season, r.episode), ("K-On!", 0, 2));
}

#[test]
fn op_ed_and_bracketed_special_words() {
    let r = p("(Hi10)_High_School_DxD_New_-_OP1_(BD_1080p)_(FFF)");
    assert_eq!(
        (r.title.as_str(), r.season, r.episode),
        ("High School DxD New", 0, 1)
    );
    let r = p("[Exiled-Destiny]_UFO_Ultramaiden_Valkyrie_2_Clean_Ending_(FFAE0F4B)");
    assert_eq!(
        (r.title.as_str(), r.season),
        ("UFO Ultramaiden Valkyrie 2", 0)
    );
    let r = p("[grimf] Ichigo Mashimaro CharSong3 Matsuri");
    assert_eq!(
        (r.title.as_str(), r.season, r.episode),
        ("Ichigo Mashimaro", 0, 3)
    );
    let r = p("[Airota&VCB-Studio] Asagao to Kase-san. [Teaser][Ma10p_1080p][x265_flac]");
    assert_eq!(
        (r.title.as_str(), r.season, r.episode),
        ("Asagao to Kase-san", 0, 1)
    );
    let r = p("[Doki] Mayo Chiki! - NCEDv2 (1920x1080 Hi10P BD FLAC) [DB77308F]");
    assert_eq!(
        (r.title.as_str(), r.season, r.episode),
        ("Mayo Chiki!", 0, 1)
    );
    let r = p("[Scum] Girlish Number - NCI [BD][4BE57A27]");
    assert_eq!((r.title.as_str(), r.season), ("Girlish Number", 0));
}

#[test]
fn a_version_suffix_does_not_split_a_special_from_its_siblings() {
    // "Special 01v2" and "Special 02" sit in one folder and must land in the same season.
    let a = p("[Commie] Yuyushiki - Special 01v2 [BD 720p AAC] [0BA75EEF]");
    let b = p("[Commie] Yuyushiki - Special 02 [BD 720p AAC] [1AD2AC62]");
    assert_eq!((a.title.as_str(), a.season, a.episode), ("Yuyushiki", 0, 1));
    assert_eq!((b.title.as_str(), b.season, b.episode), ("Yuyushiki", 0, 2));
    assert_eq!(a.title, b.title);
}

#[test]
fn bare_s_number_without_episode_is_a_special() {
    let r = p("(Hi10)_High_School_DxD_BorN_-_S5_(BD_1080p)_(CBM)");
    assert_eq!(
        (r.title.as_str(), r.season, r.episode),
        ("High School DxD BorN", 0, 5)
    );
}

#[test]
fn noise_tail_stripped_from_title() {
    let r = p("[Exiled-Destiny]_Aria_Season_1_The_Animation_Ep01_Subbed_(9A11D5BB)");
    assert_eq!(r.title, "Aria Season 1 The Animation");
    assert_eq!(r.episode, 1);
    let r = p("Sekirei Complete BDrip 1080p Dual-Audio x265 - 03");
    assert_eq!(r.title, "Sekirei");
}

#[test]
fn confidence_flags_weak_heuristics() {
    let lc = |stem: &str, dirs: &[&str]| {
        let d: Vec<String> = dirs.iter().map(|s| s.to_string()).collect();
        parse_with_confidence(stem, &d).expect(stem).low_confidence
    };
    assert!(!lc("[SubsPlease] Frieren - 05 (1080p) [A1B2C3D4]", &[]));
    assert!(!lc("Mob.Psycho.100.S02E07.1080p.WEB.x264", &[]));
    assert!(!lc("[Group] Show - NCOP1 [1080p]", &[]));
    assert!(lc("K-ON! The Movie", &[]));
    assert!(lc(
        "S01E07-Thus, the Sisters Trade Places",
        &["Makina-san's a Love Bot S01"]
    ));
    assert!(lc(
        "01- He woke up as a Bagel Girl [darkflux]",
        &["Bagel Girl"]
    ));
    assert!(lc(
        "Tamako Market 01 That Girl is the Cute Daughter of a Mochi Shop Owner",
        &[]
    ));
}

#[test]
fn parsed_titles_are_trimmed_and_free_of_separators() {
    for stem in [
        "[Grp]_My.Show_-_03_[1080p]",
        "  Some.Show.S02E05.1080p.WEB  ",
        "Another_Show - 12v2",
        "Kimi no Na wa - 2016 - 1080p",
    ] {
        let p = parse_with_confidence(stem, &[]).expect(stem);
        let t = &p.name.title;
        assert!(!t.is_empty(), "{stem}");
        assert_eq!(t.trim(), t, "{stem}");
        assert!(!t.contains('_') && !t.contains('.'), "{stem}: {t}");
    }
}
