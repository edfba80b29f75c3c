use anime_manager::anilist::{
    anilist_hits, AniListRecord, best_match, cover_extension, covers_dir, hit_score, more_similar, similarity, Similarity,
    MIN_AUTO_MATCH_DEN, MIN_AUTO_MATCH_NUM,
};
use anime_manager::error::AppError;
use anime_manager::kitsu::{endpoint_base, kitsu_hits, KitsuRecord, DEFAULT_ENDPOINT as KITSU_ENDPOINT};
use anime_manager::metadata::{combine_searches, provider_for, Provider};
use anime_manager::models::MetadataHit;

fn ratio(s: Similarity) -> f64 {
    s.num as f64 / s.den as f64
}

fn min_auto_match() -> f64 {
    MIN_AUTO_MATCH_NUM as f64 / MIN_AUTO_MATCH_DEN as f64
}

fn hit(source: &str, id: i64, romaji: &str, english: Option<&str>) -> MetadataHit {
    MetadataHit {
        id,
        source: source.into(),
        title_romaji: romaji.into(),
        title_english: english.map(str::to_string),
        cover_url: None,
        episodes: None,
    }
}

#[test]
fn similarity_rejects_unrelated_titles() {
    assert!(ratio(similarity("Sousou no Frieren", "Sousou no Frieren")) > 0.99);
    assert!(ratio(similarity("Frieren", "Sousou no Frieren")) >= min_auto_match());
    assert!(ratio(similarity("Bagel Girl", "Sousou no Frieren")) < min_auto_match());
    assert!(ratio(similarity("Sekirei", "Sousou no Frieren")) < min_auto_match());
    assert!(ratio(similarity("Yuru Yuri", "Yuru Yuri San Hai!")) >= min_auto_match());
    let hits = vec![hit("anilist", 1, "Totally Unrelated Show", None)];
    assert!(best_match("Bagel Girl", &hits).is_none(), "a bad first hit must not be applied unattended");
    let hits = vec![hit("anilist", 2, "Sousou no Frieren", Some("Frieren: Beyond Journey's End"))];
    assert_eq!(best_match("Frieren", &hits).map(|h| h.id), Some(2), "the English title also counts");
}

#[test]
fn cover_extension_falls_back_to_jpg() {
    assert_eq!(cover_extension("https://img/x.png"), "png");
    assert_eq!(cover_extension("https://img/x.webp"), "webp");
    assert_eq!(cover_extension("https://img/x.jpg"), "jpg");
    assert_eq!(cover_extension("https://img/no-extension"), "jpg");
}

#[test]
fn an_exact_tie_goes_to_the_first_provider() {
    let hits = vec![
        hit("anilist", 154587, "Sousou no Frieren", None),
        hit("kitsu", 46474, "Sousou no Frieren", None),
    ];
    let best = best_match("Sousou no Frieren", &hits).unwrap();
    assert_eq!((best.source.as_str(), best.id), ("anilist", 154587));
    let hits = vec![hit("anilist", 1, "Sousou no Frieren", None), hit("kitsu", 2, "Sousou no Frieren", None)];
    assert_eq!(best_match("Sousou no Frieren", &hits).unwrap().id, 1);
}

#[test]
fn a_strictly_better_later_hit_wins() {
    let hits = vec![hit("anilist", 1, "Frieren Movie", None), hit("kitsu", 2, "Frieren", None)];
    assert_eq!(best_match("Frieren", &hits).unwrap().id, 2);
    assert!(best_match("Frieren", &[]).is_none());
}

#[test]
fn similarity_is_the_dice_coefficient_of_bigrams() {
    // "night" and "nacht" share one bigram ("ht") of four each: 2*1/(4+4).
    let s = similarity("night", "nacht");
    assert_eq!(s.num * 4, s.den);
    // Case and punctuation are ignored.
    assert_eq!(ratio(similarity("Yuru-Yuri!", "yuru yuri")), 1.0);
    // Nothing to compare on one side gives 0.
    assert_eq!(ratio(similarity("!", "abc")), 0.0);
    // Order does not matter.
    assert_eq!(ratio(similarity("abcd", "bcde")), ratio(similarity("bcde", "abcd")));
}

#[test]
fn hit_score_takes_the_better_of_both_titles() {
    let h = hit("anilist", 1, "Zzzz", Some("Frieren"));
    assert_eq!(ratio(hit_score("Frieren", &h)), 1.0);
    assert!(more_similar(Similarity { num: 1, den: 2 }, Similarity { num: 1, den: 3 }));
    assert!(!more_similar(Similarity { num: 2, den: 4 }, Similarity { num: 1, den: 2 }));
}

#[test]
fn covers_live_under_the_data_directory() {
    assert_eq!(covers_dir("/home/u/.local/share/app"), "/home/u/.local/share/app/covers");
    assert_eq!(covers_dir("/data/"), "/data/covers");
}

#[test]
fn providers_by_source_name() {
    assert_eq!(provider_for("anilist"), Some(Provider::AniList));
    assert_eq!(provider_for("kitsu"), Some(Provider::Kitsu));
    assert_eq!(provider_for("mal"), None);
}

#[test]
fn one_provider_down_is_a_warning_not_a_failure() {
    let (hits, warnings) = combine_searches(
        Err(AppError::Network("timed out".into())),
        Ok(vec![hit("kitsu", 3, "Show", None)]),
    );
    assert_eq!(hits.iter().map(|h| h.id).collect::<Vec<_>>(), vec![3]);
    assert_eq!(warnings, vec!["anilist: network: timed out".to_string()]);
    let (hits, warnings) = combine_searches(
        Ok(vec![hit("anilist", 1, "A", None)]),
        Ok(vec![hit("kitsu", 2, "B", None)]),
    );
    assert_eq!(hits.iter().map(|h| h.id).collect::<Vec<_>>(), vec![1, 2]);
    assert!(warnings.is_empty());
    let (hits, warnings) =
        combine_searches(Err(AppError::Network("a".into())), Err(AppError::Parse("b".into())));
    assert!(hits.is_empty());
    assert_eq!(warnings, vec!["anilist: network: a".to_string(), "kitsu: parse: b".to_string()]);
}

fn kitsu_record(id: &str, canonical: &str, en: Option<&str>, en_jp: Option<&str>, count: Option<i64>, poster: Option<&str>) -> KitsuRecord {
    KitsuRecord {
        id: Some(id.into()),
        has_attributes: true,
        title_en_jp: en_jp.map(str::to_string),
        canonical_title: Some(canonical.into()),
        title_en: en.map(str::to_string),
        poster_large: poster.map(str::to_string),
        episode_count: count,
    }
}

#[test]
fn kitsu_records_make_hits_and_unusable_rows_are_skipped() {
    let records = vec![
        kitsu_record(
            "46474",
            "Frieren: Beyond Journey's End",
            Some("Frieren: Beyond Journey's End"),
            Some("Sousou no Frieren"),
            Some(28),
            Some("https://media.kitsu.app/x/large.jpeg"),
        ),
        kitsu_record("49240", "Sousou no Frieren 2nd Season", None, None, None, None),
        kitsu_record("bogus", "Skipped", None, None, None, None),
        KitsuRecord { id: Some("7".into()), has_attributes: false, ..Default::default() },
    ];
    let hits = kitsu_hits(records);
    assert_eq!(hits.len(), 2, "the non-numeric id is skipped, not fatal");
    assert_eq!(hits[0].id, 46474);
    assert_eq!(hits[0].source, "kitsu");
    assert_eq!(hits[0].title_romaji, "Sousou no Frieren", "romaji wins over an English canonicalTitle");
    assert_eq!(hits[0].title_english.as_deref(), Some("Frieren: Beyond Journey's End"));
    assert_eq!(hits[0].episodes, Some(28));
    assert_eq!(hits[0].cover_url.as_deref(), Some("https://media.kitsu.app/x/large.jpeg"));
    assert_eq!(hits[1].title_romaji, "Sousou no Frieren 2nd Season");
    assert_eq!(hits[1].title_english, None);
    assert_eq!(hits[1].cover_url, None);
    assert_eq!(endpoint_base("https://kitsu.io/api/edge//"), KITSU_ENDPOINT);
}

#[test]
fn anilist_entries_need_an_id_and_a_romaji_title() {
    let hits = anilist_hits(vec![
        AniListRecord {
            id: Some(154587),
            title_romaji: Some("Sousou no Frieren".into()),
            title_english: Some("Frieren: Beyond Journey's End".into()),
            cover_large: Some("https://img/x.png".into()),
            episodes: Some(28),
        },
        AniListRecord { id: None, title_romaji: Some("No id".into()), ..Default::default() },
        AniListRecord { id: Some(3), title_romaji: None, ..Default::default() },
        AniListRecord { id: Some(4), title_romaji: Some("Bare".into()), ..Default::default() },
    ]);
    assert_eq!(hits.iter().map(|h| h.id).collect::<Vec<_>>(), vec![154587, 4]);
    assert_eq!(hits[0].source, "anilist");
    assert_eq!(hits[0].episodes, Some(28));
    assert_eq!(hits[1].title_english, None);
}
