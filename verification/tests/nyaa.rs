use anime_manager::models::{EpisodeRow, EpisodeStatus, SeasonRow};
use anime_manager::nyaa::{
    classify_title, feed_url, form_encode, hit_from_item, hunt_query, hunt_total, modal_group,
    modal_resolution, order_by_seeders, owned_episodes, parse_size, per_season, size_band,
    strict_hits, subscribe_derivation, wanted_numbers, NyaaHit, Owned, RawItem, WantedHit,
};

fn owned(season: u32, number: u32, group: Option<&str>, resolution: Option<&str>) -> Owned {
    Owned {
        season,
        number,
        group: group.map(str::to_string),
        resolution: resolution.map(str::to_string),
    }
}

#[test]
fn singles_classify_and_batches_reject() {
    let s = classify_title("[SubGroup] Sousou no Frieren - 06 [1080p][ABC123].mkv").expect("single");
    assert_eq!(s.group.as_deref(), Some("subgroup"));
    assert_eq!(s.resolution.as_deref(), Some("1080p"));
    assert_eq!(s.episode, 6);
    assert!(classify_title("[SubGroup] Sousou no Frieren 01-13 [1080p]").is_none(), "ranges reject");
    assert!(classify_title("[SubGroup] Sousou no Frieren Batch [1080p]").is_none(), "batch rejects");
    assert!(classify_title("[SubGroup] Sousou no Frieren Movie [1080p]").is_none(), "movie rejects");
    assert!(classify_title("[G] Show - Vol.2 [1080p]").is_none(), "volumes reject");
    assert!(
        classify_title("[G] Backpack Adventures - 03 [1080p]").is_some_and(|s| s.episode == 3),
        "backpack is not a pack"
    );
    assert_eq!(
        classify_title("[SubGroup] Show - 06v2 [1080p]").map(|s| s.episode),
        Some(6),
        "glued version suffix keeps the episode"
    );
    assert_eq!(
        classify_title("[SubGroup] Show - 06ver2 [1080p]").map(|s| s.episode),
        Some(6),
        "glued ver suffix keeps the episode"
    );
    assert_eq!(
        classify_title("[SubGroup] Show - 06 [1080p] v2").map(|s| s.episode),
        Some(6),
        "spaced version suffix still works"
    );
    assert_eq!(parse_size("1.4 GiB"), 1_503_238_553);
    assert_eq!(parse_size("700 MiB"), 734_003_200);
    assert_eq!(parse_size("n/a"), 0);
}

#[test]
fn group_tie_breaks_to_earliest_episode() {
    let owned = vec![owned(1, 1, Some("A"), None), owned(1, 2, Some("B"), None)];
    assert_eq!(modal_group(&owned).as_deref(), Some("a"));
}

#[test]
fn size_band_is_median_plus_minus_thirty_percent() {
    assert_eq!(size_band(&[100, 200, 300]), Some((140, 260)));
    assert_eq!(size_band(&[]), None);
}

#[test]
fn season_episode_markers_win() {
    for title in ["[Sub] Show S01E06 [1080p]", "[Sub] Show E06 [1080p]", "[Sub] Show EP06 [1080p]"] {
        assert_eq!(classify_title(title).map(|s| s.episode), Some(6), "{title}");
    }
    assert_eq!(classify_title("[Sub] Show S02E13 [1080p]").map(|s| s.episode), Some(13));
}

#[test]
fn trailing_year_does_not_overwrite_episode() {
    let s = classify_title("[G] Show - 06 (2024) [1080p]").expect("single");
    assert_eq!(s.episode, 6);
}

#[test]
fn dash_glued_quality_is_not_a_range() {
    let s = classify_title("[G] Show - 06-1080p").expect("single");
    assert_eq!(s.episode, 6);
    assert_eq!(s.resolution.as_deref(), Some("1080p"));
}

#[test]
fn group_comes_from_any_bracket_token() {
    let s = classify_title("Show - 06 [1080p] [AwesomeSub]").expect("single");
    assert_eq!(s.group.as_deref(), Some("awesomesub"));
    assert_eq!(s.episode, 6);
    let s = classify_title("[1080p] Show - 06 [G]").expect("single");
    assert_eq!(s.group.as_deref(), Some("g"));
    assert_eq!(s.episode, 6);
    let s = classify_title("[G] Show - 06 [1080p][ABCDEF12]").expect("single");
    assert_eq!(s.group.as_deref(), Some("g"));
    let s = classify_title("[G] Show - 06 [1080p] [v2]").expect("single");
    assert_eq!(s.group.as_deref(), Some("g"));
}

#[test]
fn evol_is_not_a_volume() {
    assert_eq!(classify_title("[G] Evol. - 03 [1080p]").map(|s| s.episode), Some(3));
}

#[test]
fn decimal_episodes_are_unparseable() {
    assert!(classify_title("[G] Show - 12.5").is_none());
    assert!(classify_title("[G] Show - 12.5 [1080p]").is_none());
}

#[test]
fn stem_strips_only_known_extensions() {
    assert_eq!(classify_title("[G] Show - 06.MKV").map(|s| s.episode), Some(6));
}

#[test]
fn modal_keys_trim_before_lowercase() {
    let owned = vec![owned(1, 1, Some("  G  "), None)];
    assert_eq!(modal_group(&owned).as_deref(), Some("g"));
}

#[test]
fn modal_resolution_and_no_votes() {
    let two = vec![owned(1, 1, Some("G"), Some("1080p")), owned(1, 2, Some("G"), Some("1080p"))];
    assert_eq!(modal_resolution(&two).as_deref(), Some("1080p"));
    assert!(modal_group(&[]).is_none());
    assert!(modal_resolution(&[]).is_none());
    let novote = vec![owned(1, 1, None, None)];
    assert!(modal_group(&novote).is_none());
    assert!(modal_resolution(&novote).is_none());
}

#[test]
fn subscribe_derivation_without_group_or_resolution() {
    let owned = vec![owned(1, 1, None, None), owned(1, 2, None, None)];
    let d = subscribe_derivation("No Group Show", &owned);
    assert!(d.group.is_none(), "no group on disk means no group clause");
    assert!(d.resolution.is_none(), "no resolution on disk means no resolution clause");
    assert_eq!(
        d.feed_url, "https://nyaa.si/?page=rss&q=No+Group+Show&c=1_2&f=0",
        "title-only query in the same shape as feed_url pins"
    );
}

#[test]
fn parse_size_extended() {
    assert_eq!(parse_size("1.4 gib"), 1_503_238_553, "lowercase unit");
    assert_eq!(parse_size("  700 MiB  "), 734_003_200, "surrounding spaces");
    assert_eq!(parse_size("0 B"), 0);
    assert_eq!(parse_size("10 XB"), 0, "unknown unit");
}

#[test]
fn reject_list_one_liners() {
    for title in [
        "[G] Show Complete [1080p]",
        "[G] Show Collection [1080p]",
        "[G] Show Packs [1080p]",
        "[G] Show 12~13 [1080p]",
        "[G] Show 6–7 [1080p]",
    ] {
        assert!(classify_title(title).is_none(), "{title}");
    }
    let s = classify_title("[G] Show - 06 [480p]").expect("480p is a resolution");
    assert_eq!(s.resolution.as_deref(), Some("480p"));
    assert_eq!(s.episode, 6);
    let s = classify_title("[G] Show - 06 [2160p]").expect("2160p is a resolution");
    assert_eq!(s.resolution.as_deref(), Some("2160p"));
    let s = classify_title("Show - 06 [1080p]").expect("no group");
    assert_eq!(s.group, None);
    assert_eq!(s.episode, 6);
    let s = classify_title("Show - 06 1080p").expect("unbracketed resolution");
    assert_eq!(s.episode, 6);
    assert_eq!(s.resolution.as_deref(), Some("1080p"));
}

#[test]
fn subscribe_derivation_carries_group_and_resolution() {
    let owned = vec![owned(1, 1, Some("G"), Some("1080p")), owned(1, 2, Some("G"), Some("1080p"))];
    let d = subscribe_derivation("Grouped", &owned);
    assert_eq!(d.group.as_deref(), Some("g"), "modal group lowercased");
    assert_eq!(d.resolution.as_deref(), Some("1080p"));
    assert_eq!(d.feed_url, "https://nyaa.si/?page=rss&q=Grouped&c=1_2&f=0");
}

#[test]
fn parse_rss_without_link_or_info_hash_yields_none() {
    let item = RawItem {
        title: "[G] Show - 01 [1080p]".into(),
        link: String::new(),
        guid: "https://nyaa.si/view/1".into(),
        info_hash: String::new(),
        size: "1.4 GiB".into(),
        seeders: String::new(),
    };
    let hit = hit_from_item(&item).expect("a view page is enough");
    assert_eq!(hit.page_url, "https://nyaa.si/view/1");
    assert!(hit.torrent_url.is_none(), "no <link> means no torrent URL");
    assert!(hit.info_hash.is_none(), "no nyaa:infoHash means None");
    assert_eq!(hit.size_bytes, 1_503_238_553);
    assert_eq!(hit.seeders, 0);
}

#[test]
fn items_without_view_page_or_link_are_skipped() {
    let item = RawItem {
        title: "[G] Show - 01".into(),
        link: "  ".into(),
        guid: String::new(),
        info_hash: String::new(),
        size: String::new(),
        seeders: "3".into(),
    };
    assert!(hit_from_item(&item).is_none());
    let linked = RawItem { link: " https://nyaa.si/download/9.torrent ".into(), ..item };
    let hit = hit_from_item(&linked).expect("the link serves as the page");
    assert_eq!(hit.page_url, "https://nyaa.si/download/9.torrent");
    assert_eq!(hit.torrent_url.as_deref(), Some("https://nyaa.si/download/9.torrent"));
    assert_eq!(hit.seeders, 3);
}

#[test]
fn gaps_inside_the_owned_range_and_continuation_for_season_one() {
    let per = vec![(1u32, vec![1u32, 3, 4]), (2, vec![1, 3])];
    assert_eq!(wanted_numbers(&per, Some(6)), vec![(1, 2), (1, 5), (1, 6), (2, 2)]);
    assert_eq!(wanted_numbers(&per, None), vec![(1, 2), (2, 2)]);
    // At or past the total: no continuation.
    assert_eq!(wanted_numbers(&[(1, vec![1, 2, 3])], Some(3)), vec![]);
    assert_eq!(wanted_numbers(&[(1, vec![1, 2, 3])], Some(2)), vec![]);
    assert_eq!(wanted_numbers(&[(1, vec![])], Some(2)), vec![]);
}

#[test]
fn owned_rows_group_by_season_and_skip_specials_and_missing() {
    let row = |id: i64, number: u32, status: EpisodeStatus, g: Option<&str>| EpisodeRow {
        id,
        season_id: 1,
        number,
        path: format!("/lib/{id}.mkv"),
        size: 1,
        mtime: 1,
        release_group: g.map(str::to_string),
        resolution: None,
        crc: None,
        status,
        last_played_at: None,
    };
    let seasons = vec![
        SeasonRow { id: 10, number: 0, title: None, episodes: vec![row(1, 1, EpisodeStatus::Unplayed, None)] },
        SeasonRow {
            id: 11,
            number: 1,
            title: None,
            episodes: vec![
                row(2, 1, EpisodeStatus::Played, Some("G")),
                row(3, 2, EpisodeStatus::Missing, Some("G")),
                row(4, 4, EpisodeStatus::Unplayed, Some("H")),
            ],
        },
    ];
    let owned = owned_episodes(&seasons);
    let numbers: Vec<(u32, u32)> = owned.iter().map(|o| (o.season, o.number)).collect();
    assert_eq!(numbers, vec![(1, 1), (1, 4)]);
    assert_eq!(owned[0].group.as_deref(), Some("G"));
    assert_eq!(per_season(&owned), vec![(1, vec![1, 4])]);
}

#[test]
fn hunting_helpers() {
    assert_eq!(hunt_total(Some(12)), Some(12));
    assert_eq!(hunt_total(Some(0)), None);
    assert_eq!(hunt_total(None), None);
    assert_eq!(hunt_query("Show", 7), "Show 7");
}

fn hit(title: &str, seeders: u32) -> NyaaHit {
    NyaaHit {
        title: title.into(),
        page_url: format!("https://nyaa.si/view/{seeders}"),
        torrent_url: None,
        info_hash: None,
        size_bytes: 1,
        seeders,
    }
}

#[test]
fn strict_filter_keeps_matching_singles_best_seeded_first() {
    let hits = vec![
        hit("[G] Show - 02 [1080p]", 5),
        hit("[G] Show - 03 [1080p]", 50),
        hit("[H] Show - 02 [1080p]", 40),
        hit("[G] Show - 02 [720p]", 30),
        hit("[G] Show 01-12 [1080p]", 99),
        hit("[g] Show - 02 [1080P]", 9),
    ];
    let kept = strict_hits(hits, 2, &Some("g".into()), &Some("1080p".into()));
    let seeds: Vec<u32> = kept.iter().map(|h| h.seeders).collect();
    assert_eq!(seeds, vec![9, 5]);
    let any = strict_hits(vec![hit("[H] Show - 02", 1), hit("[G] Show - 02", 2)], 2, &None, &None);
    assert_eq!(any.iter().map(|h| h.seeders).collect::<Vec<_>>(), vec![2, 1]);
}

#[test]
fn seeders_order_is_stable_for_ties() {
    let w = |t: &str, s: u32| WantedHit {
        title: t.into(),
        page_url: String::new(),
        torrent_url: None,
        info_hash: None,
        size_bytes: 0,
        seeders: s,
    };
    let out = order_by_seeders(vec![w("a", 1), w("b", 3), w("c", 1), w("d", 3)]);
    let titles: Vec<&str> = out.iter().map(|h| h.title.as_str()).collect();
    assert_eq!(titles, vec!["b", "d", "a", "c"]);
}

#[test]
fn feed_url_form_encodes_the_query() {
    assert_eq!(feed_url("Sousou no Frieren"), "https://nyaa.si/?page=rss&q=Sousou+no+Frieren&c=1_2&f=0");
    assert_eq!(form_encode("a&b=c/é*"), "a%26b%3Dc%2F%C3%A9*".chars().collect::<Vec<char>>());
}

#[test]
fn parse_size_units_and_rejects() {
    assert_eq!(parse_size("1 KiB"), 1024);
    assert_eq!(parse_size("1.5 kb"), 1500);
    assert_eq!(parse_size("2 TB"), 2_000_000_000_000);
    assert_eq!(parse_size("12 B"), 12);
    assert_eq!(parse_size("1.2.3 GiB"), 0);
    assert_eq!(parse_size("GiB"), 0);
}
