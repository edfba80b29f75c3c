//! Kitsu metadata rows: which of a JSON:API record's fields make a hit.
use vstd::prelude::*;
use crate::models::MetadataHit;
use crate::parser::opt_str;
use crate::text::{chars_of, parse_signed, string_of, trim_end_by, is_char};

verus! {

pub const SOURCE: &'static str = "kitsu";
pub const DEFAULT_ENDPOINT: &'static str = "https://kitsu.io/api/edge";

/// The fields of one Kitsu anime record that a hit is built from, each present only when the
/// record holds it as the JSON type it is read as (text, or an integer for the count).
#[derive(Debug, Clone, PartialEq, Default)]
pub struct KitsuRecord {
    /// `id`: a JSON:API id, always text.
    pub id: Option<String>,
    /// Whether the record has an `attributes` object at all.
    pub has_attributes: bool,
    /// `attributes.titles.en_jp`: the romaji title.
    pub title_en_jp: Option<String>,
    /// `attributes.canonicalTitle`.
    pub canonical_title: Option<String>,
    /// `attributes.titles.en`.
    pub title_en: Option<String>,
    /// `attributes.posterImage.large`.
    pub poster_large: Option<String>,
    /// `attributes.episodeCount`.
    pub episode_count: Option<i64>,
}

/// A Kitsu hit as plain values (its source is always `kitsu`).
pub struct HitModel {
    pub id: i64,
    pub title_romaji: Seq<char>,
    pub title_english: Option<Seq<char>>,
    pub cover_url: Option<Seq<char>>,
    pub episodes: Option<i64>,
}

/// The hit a record makes: it needs attributes, a numeric id and a title. The romaji title
/// (`en_jp`) is preferred over `canonicalTitle`, which Kitsu often gives in English.
pub open spec fn kitsu_hit_spec(r: KitsuRecord) -> Option<HitModel> {
    let id = match r.id {
        Some(t) => parse_signed(t@, i64::MAX as nat),
        None => None,
    };
    let romaji = match r.title_en_jp {
        Some(t) => Some(t),
        None => r.canonical_title,
    };
    if !r.has_attributes {
        None
    } else {
        match (id, romaji) {
            (Some(n), Some(t)) => Some(HitModel {
                id: n as i64,
                title_romaji: t@,
                title_english: opt_str(r.title_en),
                cover_url: opt_str(r.poster_large),
                episodes: r.episode_count,
            }),
            _ => None,
        }
    }
}

pub open spec fn same_hit(x: MetadataHit, e: HitModel) -> bool {
    &&& x.id == e.id
    &&& x.source@ == SOURCE@
    &&& x.title_romaji@ == e.title_romaji
    &&& opt_str(x.title_english) == e.title_english
    &&& opt_str(x.cover_url) == e.cover_url
    &&& x.episodes == e.episodes
}

/// The hit of one record, or `None` for a record that cannot be used (no attributes, a
/// non-numeric id, no title); such a record is skipped, never fatal.
pub fn kitsu_hit(r: KitsuRecord) -> (h: Option<MetadataHit>)
    ensures
        kitsu_hit_spec(r) is None ==> h is None,
        kitsu_hit_spec(r) matches Some(e) ==> (h matches Some(x) && same_hit(x, e)),
{
    if !r.has_attributes {
        return None;
    }
    let id = match &r.id {
        Some(t) => crate::text::parse_i64(chars_of(t.as_str()).as_slice()),
        None => None,
    };
    let romaji = match r.title_en_jp {
        Some(t) => Some(t),
        None => r.canonical_title,
    };
    match (id, romaji) {
        (Some(n), Some(t)) => Some(MetadataHit {
            id: n,
            source: string_of(chars_of(SOURCE).as_slice()),
            title_romaji: t,
            title_english: r.title_en,
            cover_url: r.poster_large,
            episodes: r.episode_count,
        }),
        _ => None,
    }
}

/// The hits of a search answer's records, in order, the unusable ones skipped.
pub open spec fn kitsu_hits_spec(rs: Seq<KitsuRecord>) -> Seq<HitModel>
    decreases rs.len(),
{
    if rs.len() == 0 {
        Seq::<HitModel>::empty()
    } else {
        let before = kitsu_hits_spec(rs.drop_last());
        match kitsu_hit_spec(rs.last()) {
            Some(h) => before.push(h),
            None => before,
        }
    }
}

pub fn kitsu_hits(records: Vec<KitsuRecord>) -> (r: Vec<MetadataHit>)
    ensures
        r@.len() == kitsu_hits_spec(records@).len(),
        forall|i: int| 0 <= i < r@.len() ==> same_hit(#[trigger] r@[i], kitsu_hits_spec(records@)[i]),
{
    let mut out: Vec<MetadataHit> = Vec::new();
    let mut rest = records;
    let ghost input = rest@;
    let n = rest.len();
    let mut i: usize = 0;
    while i < n
        invariant
            n == input.len(),
            i <= n,
            rest@ == input.skip(i as int),
            out@.len() == kitsu_hits_spec(input.take(i as int)).len(),
            forall|j: int| 0 <= j < out@.len() ==> same_hit(#[trigger] out@[j], kitsu_hits_spec(input.take(i as int))[j]),
        decreases n - i,
    {
        let rec = rest.remove(0);
        assert(rec == input[i as int]);
        assert(input.take(i + 1).drop_last() =~= input.take(i as int));
        assert(input.take(i + 1).last() == input[i as int]);
        let ghost before = out@;
        match kitsu_hit(rec) {
            Some(h) => {
                out.push(h);
                proof {
                    let sp = kitsu_hits_spec(input.take(i + 1));
                    assert forall|j: int| 0 <= j < out@.len() implies same_hit(#[trigger] out@[j], sp[j]) by {
                        if j < before.len() {
                            assert(out@[j] == before[j]);
                        }
                    }
                }
            },
            None => {},
        }
        i = i + 1;
    }
    assert(input.take(n as int) =~= input);
    out
}

/// The endpoint without trailing slashes.
pub fn endpoint_base(endpoint: &str) -> (r: String)
    ensures
        r@ == trim_end_by(endpoint@, is_char('/')),
{
    string_of(crate::text::trim_end_char(chars_of(endpoint).as_slice(), '/').as_slice())
}

} // verus!
