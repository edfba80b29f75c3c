//! Searching both metadata providers and choosing what to apply: one provider being down is
//! a warning, never a failure.
use vstd::prelude::*;
use crate::error::AppError;
use crate::models::MetadataHit;
use crate::text::{chars_of, push_str, string_of, eq_str};

verus! {

/// Which provider a stored match came from.
#[derive(Debug, Clone, Copy, PartialEq, Eq)]
pub enum Provider {
    AniList,
    Kitsu,
}

pub fn provider_for(source: &str) -> (r: Option<Provider>)
    ensures
        r == (if source@ == crate::anilist::SOURCE@ { Some(Provider::AniList) }
            else if source@ == "kitsu"@ { Some(Provider::Kitsu) } else { None }),
{
    let s = chars_of(source);
    if eq_str(s.as_slice(), crate::anilist::SOURCE) {
        Some(Provider::AniList)
    } else if eq_str(s.as_slice(), "kitsu") {
        Some(Provider::Kitsu)
    } else {
        None
    }
}

pub open spec fn hits_of(r: Result<Vec<MetadataHit>, AppError>) -> Seq<MetadataHit> {
    match r {
        Ok(h) => h@,
        Err(_) => Seq::<MetadataHit>::empty(),
    }
}

pub open spec fn warning_of(name: Seq<char>, r: Result<Vec<MetadataHit>, AppError>) -> Seq<Seq<char>> {
    match r {
        Ok(_) => Seq::<Seq<char>>::empty(),
        Err(e) => seq![name + ": "@ + e.text()],
    }
}

fn warning(name: &str, e: &AppError) -> (r: String)
    ensures
        r@ == name@ + ": "@ + e.text(),
{
    let mut v = chars_of(name);
    push_str(&mut v, ": ");
    let m = e.message();
    push_str(&mut v, m.as_str());
    string_of(v.as_slice())
}

/// Both providers' answers to one search: AniList's hits then Kitsu's, and a warning naming
/// each provider that failed.
pub fn combine_searches(anilist: Result<Vec<MetadataHit>, AppError>, kitsu: Result<Vec<MetadataHit>, AppError>)
    -> (r: (Vec<MetadataHit>, Vec<String>))
    ensures
        r.0@ == hits_of(anilist) + hits_of(kitsu),
        r.1@.map_values(|s: String| s@) == warning_of("anilist"@, anilist) + warning_of("kitsu"@, kitsu),
{
    let ghost (a0, k0) = (anilist, kitsu);
    let mut hits: Vec<MetadataHit> = Vec::new();
    let mut errors: Vec<String> = Vec::new();
    match anilist {
        Ok(h) => {
            hits = h;
        },
        Err(e) => {
            errors.push(warning("anilist", &e));
        },
    }
    let ghost mid_errors = errors@;
    match kitsu {
        Ok(mut h) => {
            hits.append(&mut h);
        },
        Err(e) => {
            errors.push(warning("kitsu", &e));
        },
    }
    assert(hits@ =~= hits_of(a0) + hits_of(k0));
    assert(errors@.map_values(|s: String| s@) =~= warning_of("anilist"@, a0) + warning_of("kitsu"@, k0));
    (hits, errors)
}

} // verus!
