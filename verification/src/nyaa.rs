//! Nyaa release titles: the single-episode classifier, the size parser, and the rules of
//! the missing-episode hunt (which numbers are wanted, which release group and resolution
//! the owned files prefer).
use vstd::prelude::*;
use crate::pattern::{Span, leftmost_match, leftmost_captures, all_matches, group, text_of, span_in};
use crate::models::{EpisodeRow, SeasonRow, EpisodeStatus};
use crate::text::{trim, unicode_lowercase, unicode_alphanumeric, is_digit, parse_unsigned, last_index_of, rfind_char,
    eq_str};

verus! {

broadcast use vstd::seq_lib::group_to_multiset_ensures;

pub const RANGE_RE: &'static str = r"\d+\s*[-~–]\s*\d+";
/// Word-boundaried so `backpack` survives; `\bvol\.` rejects `Vol.` but lets `Evol.` through.
pub const REJECT_RE: &'static str = r"(?i)\b(batch|complete|collection|packs?|movies?)\b|\bvol\.";
pub const RESOLUTION_RE: &'static str = r"(?i)\b(480p|720p|1080p|2160p)\b";
pub const BRACKET_RE: &'static str = r"\[[^\]]*\]";
pub const NUMBER_RE: &'static str = r"\d+";
pub const SIZE_RE: &'static str = r"(?i)^\s*([\d.]+)\s*([kmgt]ib|b|[kmgt]b)\s*$";
pub const VERSION_TAG_RE: &'static str = r"(?i)(?:^|[^a-z0-9])(?:v|ver)\s*$";
/// A version suffix glued onto an episode number (`06v2`, `06ver2`).
pub const GLUED_VERSION_RE: &'static str = r"(?i)^(?:v\d+|ver\d+)";
/// Explicit season-episode marker (`S01E06`, `E06`, `EP06`).
pub const SEASON_EP_RE: &'static str = r"(?i)(?:^|[^a-z0-9])(?:s\d{1,2}e|e|ep)(\d{1,4})(?:$|[^a-z0-9])";
/// A `[ABCDEF12]` CRC token: eight hex digits, never a release group.
pub const CRC_TOKEN_RE: &'static str = r"(?i)^[0-9a-f]{8}$";
/// A `[v2]` / `[ver2]` release-revision token: never a release group.
pub const VERSION_TOKEN_RE: &'static str = r"(?i)^(?:v\d+|ver\d+)$";

/// A Nyaa title classified as a single-episode release.
pub struct SingleEpisode {
    pub group: Option<String>,
    pub resolution: Option<String>,
    pub episode: u32,
}

pub struct SingleModel {
    pub group: Option<Seq<char>>,
    pub resolution: Option<Seq<char>>,
    pub episode: u32,
}

impl SingleEpisode {
    pub open spec fn model(&self) -> SingleModel {
        SingleModel {
            group: crate::parser::opt_str(self.group),
            resolution: crate::parser::opt_str(self.resolution),
            episode: self.episode,
        }
    }
}

// ---------------------------------------------------------------------------
// Stem
// ---------------------------------------------------------------------------

/// Known media and subtitle container extensions (lowercase).
pub open spec fn known_ext(e: Seq<char>) -> bool {
    e == "mkv"@ || e == "mp4"@ || e == "avi"@ || e == "m2ts"@ || e == "ts"@ || e == "ass"@ || e == "srt"@
}

pub open spec fn path_like(c: char) -> bool {
    c == '/' || c == '\\' || c == ' ' || c == '[' || c == ']'
}

/// The title without a trailing known container extension (after trimming). Anything else
/// after the last dot (`12.5`) is part of the title.
pub open spec fn stem_of_spec(title: Seq<char>) -> Seq<char> {
    let t = trim(title);
    match last_index_of(t, '.') {
        Some(i) if i > 0 => {
            let ext = t.subrange(i + 1, t.len() as int);
            if exists|j: int| 0 <= j < ext.len() && path_like(ext[j]) {
                t
            } else if known_ext(unicode_lowercase(ext)) {
                t.subrange(0, i)
            } else {
                t
            }
        },
        _ => t,
    }
}

pub fn stem_of(title: &[char]) -> (r: Vec<char>)
    ensures
        r@ == stem_of_spec(title@),
{
    let t = crate::text::trim_chars(title);
    match rfind_char(t.as_slice(), '.') {
        Some(i) if i > 0 => {
            assert(i < t.len());
            let ext = crate::text::slice_chars(t.as_slice(), i + 1, t.len());
            let mut bad = false;
            let mut j: usize = 0;
            while j < ext.len()
                invariant
                    j <= ext@.len(),
                    bad == (exists|k: int| 0 <= k < j && path_like(ext@[k])),
                decreases ext@.len() - j,
            {
                let c = ext[j];
                if c == '/' || c == '\\' || c == ' ' || c == '[' || c == ']' {
                    bad = true;
                }
                j = j + 1;
            }
            if bad {
                return t;
            }
            let low = crate::text::to_lowercase(ext.as_slice());
            let l = low.as_slice();
            if crate::text::eq_str(l, "mkv") || crate::text::eq_str(l, "mp4") || crate::text::eq_str(l, "avi")
                || crate::text::eq_str(l, "m2ts") || crate::text::eq_str(l, "ts") || crate::text::eq_str(l, "ass")
                || crate::text::eq_str(l, "srt") {
                crate::text::slice_chars(t.as_slice(), 0, i)
            } else {
                t
            }
        },
        _ => t,
    }
}

// ---------------------------------------------------------------------------
// Classifier
// ---------------------------------------------------------------------------

/// Whether `(s, e)` meets or overlaps `span` (ends touching count).
pub open spec fn touches(span: Option<Span>, s: int, e: int) -> bool {
    match span {
        Some(sp) => s <= sp.1 && e >= sp.0,
        None => false,
    }
}

/// Whether `(s, e)` lies inside `span`.
pub open spec fn inside(span: Option<Span>, s: int, e: int) -> bool {
    match span {
        Some(sp) => s >= sp.0 && e <= sp.1,
        None => false,
    }
}

/// Some `NN-MM` range that is not the dash-glued resolution (`06-1080p`).
pub open spec fn has_range(stem: Seq<char>) -> bool {
    let res = leftmost_match(RESOLUTION_RE@, stem);
    let rs = all_matches(RANGE_RE@, stem);
    exists|i: int| 0 <= i < rs.len() && !touches(res, rs[i].0 as int, rs[i].1 as int)
}

/// The trimmed inside of a `[...]` token.
pub open spec fn bracket_token(stem: Seq<char>, m: Span) -> Seq<char> {
    if m.1 >= m.0 + 2 {
        trim(stem.subrange(m.0 + 1, m.1 - 1))
    } else {
        Seq::empty()
    }
}

/// A bracket token that names a release group: not empty, not a resolution, CRC or version.
pub open spec fn is_group_token(tok: Seq<char>) -> bool {
    tok.len() > 0 && leftmost_match(RESOLUTION_RE@, tok) is None
        && leftmost_match(CRC_TOKEN_RE@, tok) is None && leftmost_match(VERSION_TOKEN_RE@, tok) is None
}

/// The first group token among the bracket matches from index `i` on.
pub open spec fn first_group(stem: Seq<char>, bs: Seq<Span>, i: int) -> Option<Seq<char>>
    decreases bs.len() - i,
{
    if i < 0 || i >= bs.len() {
        None
    } else if is_group_token(bracket_token(stem, bs[i])) {
        Some(bracket_token(stem, bs[i]))
    } else {
        first_group(stem, bs, i + 1)
    }
}

/// Release group: the first `[...]` token that is not a resolution, CRC or version, lowercased.
pub open spec fn group_spec(stem: Seq<char>) -> Option<Seq<char>> {
    match first_group(stem, all_matches(BRACKET_RE@, stem), 0) {
        Some(g) => Some(unicode_lowercase(g)),
        None => None,
    }
}

/// Whether `(s, e)` lies inside one of the bracket spans.
pub open spec fn in_some_bracket(bs: Seq<Span>, s: int, e: int) -> bool {
    exists|j: int| 0 <= j < bs.len() && s >= (#[trigger] bs[j]).0 && e <= bs[j].1
}

/// The standalone-number rules: outside brackets and the resolution token, bounded by
/// non-alphanumerics (a glued `v2`/`ver2` after it is allowed), not half of a decimal
/// (`12.5`), and not a `v`/`ver` version tag.
pub open spec fn standalone(stem: Seq<char>, m: Span, bs: Seq<Span>, res: Option<Span>) -> bool {
    let s = m.0 as int;
    let e = m.1 as int;
    let before = stem.subrange(0, s);
    let after = stem.subrange(e, stem.len() as int);
    let before_ok = before.len() == 0 || !unicode_alphanumeric(before.last());
    let after_ok = after.len() == 0 || !unicode_alphanumeric(after[0])
        || leftmost_match(GLUED_VERSION_RE@, after) is Some;
    &&& !in_some_bracket(bs, s, e)
    &&& !inside(res, s, e)
    &&& before_ok && after_ok
    &&& !(after.len() >= 2 && after[0] == '.' && is_digit(after[1]))
    &&& !(before.len() >= 2 && before.last() == '.' && is_digit(before[before.len() - 2]))
    &&& leftmost_match(VERSION_TAG_RE@, before) is None
}

/// The first standalone number from index `i` on that reads as a `u32`.
pub open spec fn first_number(stem: Seq<char>, ns: Seq<Span>, i: int, bs: Seq<Span>, res: Option<Span>) -> Option<u32>
    decreases ns.len() - i,
{
    if i < 0 || i >= ns.len() {
        None
    } else if standalone(stem, ns[i], bs, res) && crate::parser::parse_u32_spec(text_of(stem, ns[i])) is Some {
        crate::parser::parse_u32_spec(text_of(stem, ns[i]))
    } else {
        first_number(stem, ns, i + 1, bs, res)
    }
}

/// Episode: an explicit `S01E06` / `E06` / `EP06` marker, else the first standalone number.
pub open spec fn episode_spec(stem: Seq<char>) -> Option<u32> {
    let marked = match leftmost_captures(SEASON_EP_RE@, stem) {
        Some(g) => match group(g, 1) {
            Some(sp) => crate::parser::parse_u32_spec(text_of(stem, sp)),
            None => None,
        },
        None => None,
    };
    if marked is Some {
        marked
    } else {
        first_number(stem, all_matches(NUMBER_RE@, stem), 0, all_matches(BRACKET_RE@, stem),
            leftmost_match(RESOLUTION_RE@, stem))
    }
}

/// Classification of a Nyaa title: `None` for batches, ranges, movies, volumes, or anything
/// without an episode number.
pub open spec fn classify_spec(title: Seq<char>) -> Option<SingleModel> {
    let stem = stem_of_spec(title);
    if leftmost_match(REJECT_RE@, stem) is Some || has_range(stem) {
        None
    } else {
        match episode_spec(stem) {
            Some(e) => Some(SingleModel {
                group: group_spec(stem),
                resolution: match leftmost_match(RESOLUTION_RE@, stem) {
                    Some(m) => Some(unicode_lowercase(text_of(stem, m))),
                    None => None,
                },
                episode: e,
            }),
            None => None,
        }
    }
}

proof fn lemma_first_group_shape(stem: Seq<char>, bs: Seq<Span>, i: int)
    ensures
        first_group(stem, bs, i) matches Some(tok) ==> is_group_token(tok) && crate::parser::trimmed(tok),
    decreases bs.len() - i,
{
    if 0 <= i < bs.len() {
        let m = bs[i];
        if m.1 >= m.0 + 2 {
            crate::parser::lemma_trim_trimmed(stem.subrange(m.0 + 1, m.1 - 1));
        }
        lemma_first_group_shape(stem, bs, i + 1);
    }
}

/// What a single-episode classification guarantees: the title (without its media
/// extension) carries no batch/movie/volume word and no episode range; the group is the
/// lowercase of a bracket token that is non-empty, has no White_Space at its ends and is
/// neither a resolution, a CRC nor a version tag; the resolution is the lowercase of the
/// resolution token found in the title.
pub proof fn lemma_classified_shape(title: Seq<char>)
    ensures
        classify_spec(title) matches Some(s) ==> {
            let stem = stem_of_spec(title);
            &&& leftmost_match(REJECT_RE@, stem) is None
            &&& !has_range(stem)
            &&& (s.group matches Some(g) ==> exists|tok: Seq<char>| #[trigger] is_group_token(tok)
                    && crate::parser::trimmed(tok) && g == unicode_lowercase(tok))
            &&& (s.resolution matches Some(r) ==> (leftmost_match(RESOLUTION_RE@, stem) matches Some(m)
                    && r == unicode_lowercase(text_of(stem, m))))
        },
{
    let stem = stem_of_spec(title);
    let bs = all_matches(BRACKET_RE@, stem);
    lemma_first_group_shape(stem, bs, 0);
    if let Some(tok) = first_group(stem, bs, 0) {
        assert(is_group_token(tok));
    }
}

fn any_range_apart(stem: &[char], res: Option<Span>) -> (r: bool)
    ensures
        res == leftmost_match(RESOLUTION_RE@, stem@) ==> r == has_range(stem@),
{
    let rs = crate::pattern::find_iter(RANGE_RE, stem);
    let mut i: usize = 0;
    while i < rs.len()
        invariant
            i <= rs@.len(),
            rs@ == all_matches(RANGE_RE@, stem@),
            forall|j: int| 0 <= j < i ==> touches(res, rs@[j].0 as int, rs@[j].1 as int),
        decreases rs@.len() - i,
    {
        let (s, e) = rs[i];
        let t = match res {
            Some((a, b)) => s <= b && e >= a,
            None => false,
        };
        if !t {
            return true;
        }
        i = i + 1;
    }
    false
}

fn find_group(stem: &[char], bs: &Vec<Span>) -> (r: Option<Vec<char>>)
    requires
        forall|i: int| 0 <= i < bs@.len() ==> span_in(#[trigger] bs@[i], stem@.len()),
    ensures
        crate::parser::opt_chars(r) == first_group(stem@, bs@, 0),
{
    let mut i: usize = 0;
    while i < bs.len()
        invariant
            i <= bs@.len(),
            forall|k: int| 0 <= k < bs@.len() ==> span_in(#[trigger] bs@[k], stem@.len()),
            first_group(stem@, bs@, 0) == first_group(stem@, bs@, i as int),
        decreases bs@.len() - i,
    {
        let (s, e) = bs[i];
        assert(span_in(bs@[i as int], stem@.len()));
        let tok = if e >= 2 && e - 2 >= s {
            let inner = crate::text::slice_chars(stem, s + 1, e - 1);
            crate::text::trim_chars(inner.as_slice())
        } else {
            let v: Vec<char> = Vec::new();
            assert(v@ =~= Seq::<char>::empty());
            v
        };
        assert(tok@ == bracket_token(stem@, bs@[i as int]));
        let t = tok.as_slice();
        if tok.len() > 0 && !crate::pattern::is_match(RESOLUTION_RE, t) && !crate::pattern::is_match(CRC_TOKEN_RE, t)
            && !crate::pattern::is_match(VERSION_TOKEN_RE, t) {
            return Some(tok);
        }
        i = i + 1;
    }
    None
}

fn is_standalone(stem: &[char], m: Span, bs: &Vec<Span>, res: Option<Span>) -> (r: bool)
    requires
        span_in(m, stem@.len()),
    ensures
        r == standalone(stem@, m, bs@, res),
{
    let (s, e) = m;
    let mut j: usize = 0;
    while j < bs.len()
        invariant
            j <= bs@.len(),
            s == m.0 && e == m.1,
            forall|k: int| 0 <= k < j ==> !(s >= bs@[k].0 && e <= bs@[k].1),
        decreases bs@.len() - j,
    {
        if s >= bs[j].0 && e <= bs[j].1 {
            assert(in_some_bracket(bs@, s as int, e as int));
            return false;
        }
        j = j + 1;
    }
    assert(!in_some_bracket(bs@, s as int, e as int));
    let in_res = match res {
        Some((a, b)) => s >= a && e <= b,
        None => false,
    };
    if in_res {
        return false;
    }
    let before = crate::text::slice_chars(stem, 0, s);
    let after = crate::text::slice_chars(stem, e, stem.len());
    let before_ok = before.len() == 0 || !crate::text::is_alphanumeric(before[before.len() - 1]);
    let after_ok = after.len() == 0 || !crate::text::is_alphanumeric(after[0])
        || crate::pattern::is_match(GLUED_VERSION_RE, after.as_slice());
    if !before_ok || !after_ok {
        return false;
    }
    if after.len() >= 2 && after[0] == '.' && crate::text::is_ascii_digit(after[1]) {
        return false;
    }
    if before.len() >= 2 && before[before.len() - 1] == '.' && crate::text::is_ascii_digit(before[before.len() - 2]) {
        return false;
    }
    !crate::pattern::is_match(VERSION_TAG_RE, before.as_slice())
}

fn episode_of(stem: &[char], bs: &Vec<Span>, res: Option<Span>) -> (r: Option<u32>)
    requires
        bs@ == all_matches(BRACKET_RE@, stem@),
        res == leftmost_match(RESOLUTION_RE@, stem@),
    ensures
        r == episode_spec(stem@),
{
    let marked = match crate::pattern::captures(SEASON_EP_RE, stem) {
        Some(g) => match crate::pattern::get_group(&g, 1) {
            Some(sp) => {
                assert(span_in(sp, stem@.len()));
                crate::parser::parse_u32_at(stem, sp)
            },
            None => None,
        },
        None => None,
    };
    if marked.is_some() {
        return marked;
    }
    let ns = crate::pattern::find_iter(NUMBER_RE, stem);
    let mut i: usize = 0;
    while i < ns.len()
        invariant
            i <= ns@.len(),
            ns@ == all_matches(NUMBER_RE@, stem@),
            bs@ == all_matches(BRACKET_RE@, stem@),
            res == leftmost_match(RESOLUTION_RE@, stem@),
            episode_spec(stem@) == first_number(stem@, ns@, 0, bs@, res),
            forall|k: int| 0 <= k < ns@.len() ==> span_in(#[trigger] ns@[k], stem@.len()),
            first_number(stem@, ns@, 0, bs@, res) == first_number(stem@, ns@, i as int, bs@, res),
        decreases ns@.len() - i,
    {
        assert(span_in(ns@[i as int], stem@.len()));
        if is_standalone(stem, ns[i], bs, res) {
            let n = crate::parser::parse_u32_at(stem, ns[i]);
            if n.is_some() {
                assert(standalone(stem@, ns@[i as int], bs@, res));
                assert(first_number(stem@, ns@, i as int, bs@, res) == n);
                return n;
            }
        }
        i = i + 1;
    }
    None
}

/// Classify a Nyaa torrent title as a single-episode release.
///
/// Returns `None` for batches, ranges, movies, or anything unparseable.
pub fn classify_title(title: &str) -> (r: Option<SingleEpisode>)
    ensures
        match r {
            Some(s) => classify_spec(title@) == Some(s.model()),
            None => classify_spec(title@) is None,
        },
{
    let tc = crate::text::chars_of(title);
    let stem = stem_of(tc.as_slice());
    let st = stem.as_slice();
    if crate::pattern::is_match(REJECT_RE, st) {
        return None;
    }
    let res_span = crate::pattern::find(RESOLUTION_RE, st);
    if any_range_apart(st, res_span) {
        return None;
    }
    let resolution = match res_span {
        Some((a, b)) => {
            let t = crate::text::slice_chars(st, a, b);
            Some(crate::text::string_of(crate::text::to_lowercase(t.as_slice()).as_slice()))
        },
        None => None,
    };
    let bs = crate::pattern::find_iter(BRACKET_RE, st);
    let group = match find_group(st, &bs) {
        Some(g) => Some(crate::text::string_of(crate::text::to_lowercase(g.as_slice()).as_slice())),
        None => None,
    };
    match episode_of(st, &bs, res_span) {
        Some(episode) => Some(SingleEpisode { group, resolution, episode }),
        None => None,
    }
}

// ---------------------------------------------------------------------------
// Sizes
// ---------------------------------------------------------------------------

pub open spec fn pow10(n: nat) -> nat
    decreases n,
{
    if n == 0 {
        1
    } else {
        10 * pow10((n - 1) as nat)
    }
}

/// Bytes per unit, for a unit already lowercased.
pub open spec fn unit_bytes(u: Seq<char>) -> Option<nat> {
    if u == "kib"@ {
        Some(1024)
    } else if u == "mib"@ {
        Some(1048576)
    } else if u == "gib"@ {
        Some(1073741824)
    } else if u == "tib"@ {
        Some(1099511627776)
    } else if u == "kb"@ {
        Some(1000)
    } else if u == "mb"@ {
        Some(1000000)
    } else if u == "gb"@ {
        Some(1000000000)
    } else if u == "tb"@ {
        Some(1000000000000)
    } else if u == "b"@ {
        Some(1)
    } else {
        None
    }
}

/// A decimal number as Rust reads a float written with digits and at most one point:
/// the digits before and after the point, at least one digit in all.
pub open spec fn decimal_parts(t: Seq<char>) -> Option<(Seq<char>, Seq<char>)> {
    match crate::text::first_index_of(t, '.') {
        None => if t.len() > 0 && crate::text::all_digits(t) { Some((t, Seq::<char>::empty())) } else { None },
        Some(i) => {
            let a = t.subrange(0, i);
            let b = t.subrange(i + 1, t.len() as int);
            if crate::text::all_digits(a) && crate::text::all_digits(b) && a.len() + b.len() > 0 {
                Some((a, b))
            } else {
                None
            }
        },
    }
}

/// `a.b` times `m`, rounded down.
pub open spec fn scaled(a: Seq<char>, b: Seq<char>, m: nat) -> nat {
    (crate::text::digits_value(a + b) * m) / pow10(b.len())
}

pub open spec fn saturate(n: nat) -> nat {
    if n > u64::MAX { u64::MAX as nat } else { n }
}

/// The number `value` times the lowercased `unit`, rounded down and capped at `u64::MAX`;
/// 0 when either is not recognised.
pub open spec fn size_of_parts(value: Seq<char>, unit: Seq<char>) -> nat {
    match (decimal_parts(value), unit_bytes(unit)) {
        (Some((a, b)), Some(m)) => saturate(scaled(a, b, m)),
        _ => 0,
    }
}

/// A whole number of units is that many times the unit's size: `kb`, `mb`, `gb`, `tb` are
/// 1000 to the power 1 to 4 bytes, `kib`, `mib`, `gib`, `tib` are 1024 to the power 1 to
/// 4, and `b` is one byte; each larger unit is 1000 (or 1024) of the one before.
pub proof fn lemma_size_units(v: Seq<char>)
    requires
        v.len() > 0,
        crate::text::all_digits(v),
    ensures
        ({
            let d = crate::text::digits_value(v);
            &&& size_of_parts(v, "b"@) == saturate(d)
            &&& size_of_parts(v, "kb"@) == saturate(d * 1000)
            &&& size_of_parts(v, "mb"@) == saturate(d * (1000 * 1000))
            &&& size_of_parts(v, "gb"@) == saturate(d * (1000 * 1000 * 1000))
            &&& size_of_parts(v, "tb"@) == saturate(d * (1000 * 1000 * 1000 * 1000))
            &&& size_of_parts(v, "kib"@) == saturate(d * 1024)
            &&& size_of_parts(v, "mib"@) == saturate(d * (1024 * 1024))
            &&& size_of_parts(v, "gib"@) == saturate(d * (1024 * 1024 * 1024))
            &&& size_of_parts(v, "tib"@) == saturate(d * (1024 * 1024 * 1024 * 1024))
        }),
{
    reveal_strlit("b");
    reveal_strlit("kb");
    reveal_strlit("mb");
    reveal_strlit("gb");
    reveal_strlit("tb");
    reveal_strlit("kib");
    reveal_strlit("mib");
    reveal_strlit("gib");
    reveal_strlit("tib");
    assert(!(exists|i: int| 0 <= i < v.len() && v[i] == '.')) by {
        if exists|i: int| 0 <= i < v.len() && v[i] == '.' {
            let i = choose|i: int| 0 <= i < v.len() && v[i] == '.';
            assert(crate::text::is_digit(v[i]));
        }
    }
    assert(decimal_parts(v) == Some((v, Seq::<char>::empty())));
    assert(v + Seq::<char>::empty() =~= v);
    assert(pow10(0) == 1);
    let d = crate::text::digits_value(v);
    assert forall|m: nat| #[trigger] scaled(v, Seq::<char>::empty(), m) == d * m by {
        assert((d * m) / 1 == d * m);
    }
    assert("kib"@.len() == 3);
    assert("mib"@.len() == 3);
    assert("gib"@.len() == 3);
    assert("tib"@.len() == 3);
    assert("kb"@.len() == 2);
    assert("mb"@.len() == 2);
    assert("gb"@.len() == 2);
    assert("tb"@.len() == 2);
    assert("b"@.len() == 1);
    assert("kib"@ != "mib"@) by { assert("kib"@[0] != "mib"@[0]); }
    assert("kib"@ != "gib"@) by { assert("kib"@[0] != "gib"@[0]); }
    assert("kib"@ != "tib"@) by { assert("kib"@[0] != "tib"@[0]); }
    assert("kib"@ != "kb"@);
    assert("kib"@ != "mb"@);
    assert("kib"@ != "gb"@);
    assert("kib"@ != "tb"@);
    assert("kib"@ != "b"@);
    assert("mib"@ != "gib"@) by { assert("mib"@[0] != "gib"@[0]); }
    assert("mib"@ != "tib"@) by { assert("mib"@[0] != "tib"@[0]); }
    assert("mib"@ != "kb"@);
    assert("mib"@ != "mb"@);
    assert("mib"@ != "gb"@);
    assert("mib"@ != "tb"@);
    assert("mib"@ != "b"@);
    assert("gib"@ != "tib"@) by { assert("gib"@[0] != "tib"@[0]); }
    assert("gib"@ != "kb"@);
    assert("gib"@ != "mb"@);
    assert("gib"@ != "gb"@);
    assert("gib"@ != "tb"@);
    assert("gib"@ != "b"@);
    assert("tib"@ != "kb"@);
    assert("tib"@ != "mb"@);
    assert("tib"@ != "gb"@);
    assert("tib"@ != "tb"@);
    assert("tib"@ != "b"@);
    assert("kb"@ != "mb"@) by { assert("kb"@[0] != "mb"@[0]); }
    assert("kb"@ != "gb"@) by { assert("kb"@[0] != "gb"@[0]); }
    assert("kb"@ != "tb"@) by { assert("kb"@[0] != "tb"@[0]); }
    assert("kb"@ != "b"@);
    assert("mb"@ != "gb"@) by { assert("mb"@[0] != "gb"@[0]); }
    assert("mb"@ != "tb"@) by { assert("mb"@[0] != "tb"@[0]); }
    assert("mb"@ != "b"@);
    assert("gb"@ != "tb"@) by { assert("gb"@[0] != "tb"@[0]); }
    assert("gb"@ != "b"@);
    assert("tb"@ != "b"@);
}

/// Bytes in a Nyaa size string such as `1.4 GiB`: the number times the unit, rounded
/// down and capped at `u64::MAX`; 0 for anything unrecognised.
pub open spec fn size_bytes(s: Seq<char>) -> nat {
    match leftmost_captures(SIZE_RE@, s) {
        Some(g) => match (group(g, 1), group(g, 2)) {
            (Some(v), Some(u)) => size_of_parts(text_of(s, v), unicode_lowercase(text_of(s, u))),
            _ => 0,
        },
        None => 0,
    }
}

proof fn lemma_digits_append(a: Seq<char>, b: Seq<char>)
    ensures
        crate::text::digits_value(a + b) == crate::text::digits_value(a) * pow10(b.len())
            + crate::text::digits_value(b),
    decreases b.len(),
{
    let x = crate::text::digits_value(a);
    if b.len() == 0 {
        assert(a + b =~= a);
        assert(x * 1 == x);
    } else {
        let b1 = b.drop_last();
        assert((a + b).drop_last() =~= a + b1);
        assert((a + b).last() == b.last());
        lemma_digits_append(a, b1);
        let y = crate::text::digits_value(b1);
        let p = pow10(b1.len());
        let dl = crate::text::digit_val(b.last());
        assert(crate::text::digits_value(a + b) == crate::text::digits_value(a + b1) * 10 + dl);
        assert(crate::text::digits_value(b) == y * 10 + dl);
        assert(pow10(b.len()) == 10 * p);
        assert((x * p + y) * 10 == x * (10 * p) + y * 10) by (nonlinear_arith);
    }
}

proof fn lemma_digits_bound(t: Seq<char>)
    requires
        crate::text::all_digits(t),
    ensures
        crate::text::digits_value(t) < pow10(t.len()),
    decreases t.len(),
{
    if t.len() > 0 {
        let t1 = t.drop_last();
        assert(crate::text::all_digits(t1)) by {
            assert forall|i: int| 0 <= i < t1.len() implies is_digit(t1[i]) by {
                assert(t1[i] == t[i]);
            }
        }
        lemma_digits_bound(t1);
        assert(is_digit(t.last())) by {
            assert(t.last() == t[t.len() - 1]);
        }
        let v = crate::text::digits_value(t1);
        let p = pow10(t1.len());
        assert(v * 10 + crate::text::digit_val(t.last()) < 10 * p) by (nonlinear_arith)
            requires v < p, crate::text::digit_val(t.last()) < 10;
    }
}

/// One Horner step of the fraction: the value of `[c] + t` times `m` over its power of ten.
proof fn lemma_frac_step(c: char, t: Seq<char>, m: nat, z: nat)
    requires
        m > 0,
        is_digit(c),
        crate::text::all_digits(t),
        z == (crate::text::digits_value(t) * m) / pow10(t.len()),
    ensures
        (crate::text::digit_val(c) * m + z) / 10 == (crate::text::digits_value(seq![c] + t) * m) / pow10(t.len() + 1),
        (crate::text::digits_value(seq![c] + t) * m) / pow10(t.len() + 1) < m,
{
    let p = pow10(t.len());
    let d = crate::text::digit_val(c);
    let v = crate::text::digits_value(t);
    lemma_digits_append(seq![c], t);
    assert(seq![c].drop_last() =~= Seq::<char>::empty());
    assert(seq![c].last() == c);
    assert(crate::text::digits_value(Seq::<char>::empty()) == 0);
    assert(crate::text::digits_value(seq![c]) == crate::text::digits_value(seq![c].drop_last()) * 10 + d);
    assert(crate::text::digits_value(seq![c]) == d);
    let w = crate::text::digits_value(seq![c] + t);
    assert(w == d * p + v);
    assert(p > 0) by {
        lemma_pow10_positive(t.len());
    }
    vstd::arithmetic::div_mod::lemma_hoist_over_denominator((v * m) as int, (d * m) as int, p);
    assert(v * m + (d * m) * p == w * m) by (nonlinear_arith) requires w == d * p + v;
    vstd::arithmetic::div_mod::lemma_div_denominator((w * m) as int, p as int, 10);
    assert(pow10(t.len() + 1) == 10 * p);
    assert(p * 10 == 10 * p);
    let tc = seq![c] + t;
    assert(crate::text::all_digits(tc)) by {
        assert forall|i: int| 0 <= i < tc.len() implies is_digit(tc[i]) by {
            if i > 0 {
                assert(tc[i] == t[i - 1]);
            }
        }
    }
    lemma_digits_bound(tc);
    assert(tc.len() == t.len() + 1);
    let q = 10 * p;
    assert((w * m) / q < m) by (nonlinear_arith) requires w < q, q > 0, m > 0 {
        vstd::arithmetic::div_mod::lemma_div_is_ordered((w * m) as int, (q * m - 1) as int, q as int);
        assert(w * m <= (q - 1) * m);
        assert(q * m - 1 < q * m);
    }
}

proof fn lemma_pow10_positive(n: nat)
    ensures
        pow10(n) > 0,
    decreases n,
{
    if n > 0 {
        lemma_pow10_positive((n - 1) as nat);
    }
}

/// The whole part scaled plus the fraction scaled.
proof fn lemma_scaled_split(a: Seq<char>, b: Seq<char>, m: nat)
    ensures
        scaled(a, b, m) == crate::text::digits_value(a) * m
            + (crate::text::digits_value(b) * m) / pow10(b.len()),
{
    lemma_digits_append(a, b);
    lemma_pow10_positive(b.len());
    let x = crate::text::digits_value(a);
    let y = crate::text::digits_value(b);
    let p = pow10(b.len());
    assert((x * p + y) * m == y * m + (x * m) * p) by (nonlinear_arith);
    vstd::arithmetic::div_mod::lemma_hoist_over_denominator((y * m) as int, (x * m) as int, p);
}

fn unit_of(u: &[char]) -> (r: Option<u64>)
    ensures
        r == (match unit_bytes(u@) { Some(m) => Some(m as u64), None => None::<u64> }),
{
    if eq_str(u, "kib") {
        Some(1024)
    } else if eq_str(u, "mib") {
        Some(1048576)
    } else if eq_str(u, "gib") {
        Some(1073741824)
    } else if eq_str(u, "tib") {
        Some(1099511627776)
    } else if eq_str(u, "kb") {
        Some(1000)
    } else if eq_str(u, "mb") {
        Some(1000000)
    } else if eq_str(u, "gb") {
        Some(1000000000)
    } else if eq_str(u, "tb") {
        Some(1000000000000)
    } else if eq_str(u, "b") {
        Some(1)
    } else {
        None
    }
}

fn all_ascii_digits(s: &[char]) -> (r: bool)
    ensures
        r == crate::text::all_digits(s@),
{
    let mut i: usize = 0;
    while i < s.len()
        invariant
            i <= s@.len(),
            forall|k: int| 0 <= k < i ==> is_digit(s@[k]),
        decreases s@.len() - i,
    {
        if !crate::text::is_ascii_digit(s[i]) {
            return false;
        }
        i = i + 1;
    }
    true
}

/// `floor(0.b * m)`, by Horner's rule from the last digit.
fn scaled_fraction(b: &[char], m: u64) -> (r: u64)
    requires
        crate::text::all_digits(b@),
        0 < m <= 1099511627776,
    ensures
        r as nat == (crate::text::digits_value(b@) * (m as nat)) / pow10(b@.len()),
        r < m,
{
    let mut z: u64 = 0;
    let mut j: usize = b.len();
    assert(b@.subrange(j as int, b@.len() as int) =~= Seq::<char>::empty());
    while j > 0
        invariant
            j <= b@.len(),
            crate::text::all_digits(b@),
            0 < m <= 1099511627776,
            z as nat == (crate::text::digits_value(b@.subrange(j as int, b@.len() as int)) * (m as nat))
                / pow10((b@.len() - j) as nat),
            z < m,
        decreases j,
    {
        let c = b[j - 1];
        let d: u64 = (c as u32 - '0' as u32) as u64;
        let ghost t = b@.subrange(j as int, b@.len() as int);
        assert(crate::text::all_digits(t)) by {
            assert forall|i: int| 0 <= i < t.len() implies is_digit(t[i]) by {
                assert(t[i] == b@[j + i]);
            }
        }
        assert(is_digit(c));
        proof {
            lemma_frac_step(c, t, m as nat, z as nat);
            assert(seq![c] + t =~= b@.subrange(j - 1, b@.len() as int));
        }
        assert(d * m + z <= 10 * m) by (nonlinear_arith) requires d <= 9, z < m;
        z = (d * m + z) / 10;
        j = j - 1;
    }
    assert(b@.subrange(0, b@.len() as int) =~= b@);
    z
}

/// Parse a Nyaa size string (`1.4 GiB`) into bytes. Unknown input gives 0.
pub fn parse_size(s: &str) -> (r: u64)
    ensures
        r as nat == size_bytes(s@),
{
    let cs = crate::text::chars_of(s);
    let caps = match crate::pattern::captures(SIZE_RE, cs.as_slice()) {
        Some(c) => c,
        None => return 0,
    };
    let (v, u) = match (crate::pattern::get_group(&caps, 1), crate::pattern::get_group(&caps, 2)) {
        (Some(v), Some(u)) => (v, u),
        _ => return 0,
    };
    assert(span_in(v, cs@.len()) && span_in(u, cs@.len())) by {
        assert(caps@[1] == Some(v));
        assert(caps@[2] == Some(u));
    }
    let vt = crate::text::slice_chars(cs.as_slice(), v.0, v.1);
    let ut = crate::text::slice_chars(cs.as_slice(), u.0, u.1);
    size_value(vt.as_slice(), crate::text::to_lowercase(ut.as_slice()).as_slice())
}

/// The number `value` (digits with at most one point) times the unit `unit_lower`
/// (`kib` .. `tib`, `kb` .. `tb`, `b`), rounded down and capped at `u64::MAX`; 0 when either
/// is not recognised.
pub fn size_value(value: &[char], unit_lower: &[char]) -> (r: u64)
    ensures
        r as nat == size_of_parts(value@, unit_lower@),
{
    let vt = value;
    let m = match unit_of(unit_lower) {
        Some(m) => m,
        None => return 0,
    };
    let (a, b) = match crate::text::find_char(vt, '.') {
        None => (crate::text::slice_chars(vt, 0, vt.len()), Vec::new()),
        Some(i) => {
            let n = vt.len();
            assert(i < n);
            (crate::text::slice_chars(vt, 0, i), crate::text::slice_chars(vt, i + 1, n))
        },
    };
    proof {
        match crate::text::first_index_of(vt@, '.') {
            None => {
                assert(a@ == vt@);
                assert(b@ =~= Seq::<char>::empty());
            },
            Some(i) => {},
        }
    }
    if !all_ascii_digits(a.as_slice()) || !all_ascii_digits(b.as_slice()) || (a.len() == 0 && b.len() == 0) {
        return 0;
    }
    assert(decimal_parts(vt@) == Some((a@, b@)));
    proof {
        lemma_scaled_split(a@, b@, m as nat);
        lemma_pow10_positive(b@.len());
    }
    let z = scaled_fraction(b.as_slice(), m);
    let whole: u64 = if a.len() == 0 {
        0
    } else {
        match crate::text::parse_u64(a.as_slice()) {
            Some(x) => x,
            None => {
                assert(crate::text::digits_value(a@) > u64::MAX);
                assert(crate::text::digits_value(a@) * m >= crate::text::digits_value(a@)) by (nonlinear_arith)
                    requires m >= 1;
                return u64::MAX;
            },
        }
    };
    assert(whole == crate::text::digits_value(a@)) by {
        if a.len() == 0 {
            assert(crate::text::digits_value(a@) == 0);
        }
    }
    let wm = match whole.checked_mul(m) {
        Some(x) => x,
        None => return u64::MAX,
    };
    match wm.checked_add(z) {
        Some(t) => t,
        None => u64::MAX,
    }
}

// ---------------------------------------------------------------------------
// Wanted episode numbers
// ---------------------------------------------------------------------------

pub open spec fn seq_min(s: Seq<u32>) -> u32
    decreases s.len(),
{
    if s.len() <= 1 {
        s[0]
    } else {
        let m = seq_min(s.drop_last());
        if s.last() < m { s.last() } else { m }
    }
}

pub open spec fn seq_max(s: Seq<u32>) -> u32
    decreases s.len(),
{
    if s.len() <= 1 {
        s[0]
    } else {
        let m = seq_max(s.drop_last());
        if s.last() > m { s.last() } else { m }
    }
}

/// The numbers in `lo..n` that `nums` lacks, ascending, paired with the season.
pub open spec fn gaps(season: u32, nums: Seq<u32>, lo: int, n: int) -> Seq<(u32, u32)>
    decreases n - lo,
{
    if n <= lo {
        Seq::<(u32, u32)>::empty()
    } else {
        let before = gaps(season, nums, lo, n - 1);
        if nums.contains((n - 1) as u32) {
            before
        } else {
            before.push((season, (n - 1) as u32))
        }
    }
}

/// Season 1 continues past its highest owned number up to a known total.
pub open spec fn continuation(season: u32, max: u32, total: Option<u32>) -> Seq<(u32, u32)> {
    match total {
        Some(t) => if season == 1 && t > max {
            Seq::new((t - max) as nat, |k: int| (season, (max + 1 + k) as u32))
        } else {
            Seq::<(u32, u32)>::empty()
        },
        None => Seq::<(u32, u32)>::empty(),
    }
}

/// What one season wants: the gaps strictly inside its owned range, then (season 1 only)
/// the continuation up to the known total. A season with nothing owned wants nothing.
pub open spec fn season_wanted(season: u32, nums: Seq<u32>, total: Option<u32>) -> Seq<(u32, u32)> {
    if nums.len() == 0 {
        Seq::<(u32, u32)>::empty()
    } else {
        gaps(season, nums, seq_min(nums) as int, seq_max(nums) + 1)
            + continuation(season, seq_max(nums), total)
    }
}

/// What every season wants, season by season in the order given.
pub open spec fn wanted_spec(per_season: Seq<(u32, Vec<u32>)>, total: Option<u32>) -> Seq<(u32, u32)>
    decreases per_season.len(),
{
    if per_season.len() == 0 {
        Seq::<(u32, u32)>::empty()
    } else {
        wanted_spec(per_season.drop_last(), total)
            + season_wanted(per_season.last().0, per_season.last().1@, total)
    }
}

fn contains_u32(v: &[u32], x: u32) -> (r: bool)
    ensures
        r == v@.contains(x),
{
    let mut i: usize = 0;
    while i < v.len()
        invariant
            i <= v@.len(),
            forall|k: int| 0 <= k < i ==> v@[k] != x,
        decreases v@.len() - i,
    {
        if v[i] == x {
            assert(v@[i as int] == x);
            return true;
        }
        i = i + 1;
    }
    false
}

fn min_max(v: &[u32]) -> (r: (u32, u32))
    requires
        v@.len() > 0,
    ensures
        r.0 == seq_min(v@),
        r.1 == seq_max(v@),
{
    let mut lo = v[0];
    let mut hi = v[0];
    let mut i: usize = 1;
    while i < v.len()
        invariant
            1 <= i <= v@.len(),
            lo == seq_min(v@.take(i as int)),
            hi == seq_max(v@.take(i as int)),
        decreases v@.len() - i,
    {
        assert(v@.take(i + 1).drop_last() =~= v@.take(i as int));
        assert(v@.take(i + 1).last() == v@[i as int]);
        if v[i] < lo {
            lo = v[i];
        }
        if v[i] > hi {
            hi = v[i];
        }
        i = i + 1;
    }
    assert(v@.take(v@.len() as int) =~= v@);
    (lo, hi)
}

/// Episode numbers to hunt, per season: gaps strictly inside the owned range, plus
/// continuation past the owned maximum for season 1 only, where a known total ceilings it.
/// Unmatched and null-total shows hunt gaps only, never guessing unaired numbers.
pub fn wanted_numbers(per_season: &[(u32, Vec<u32>)], total: Option<u32>) -> (r: Vec<(u32, u32)>)
    ensures
        r@ == wanted_spec(per_season@, total),
{
    let mut out: Vec<(u32, u32)> = Vec::new();
    let mut i: usize = 0;
    while i < per_season.len()
        invariant
            i <= per_season@.len(),
            out@ == wanted_spec(per_season@.take(i as int), total),
        decreases per_season@.len() - i,
    {
        let season = per_season[i].0;
        let nums = per_season[i].1.as_slice();
        assert(per_season@.take(i + 1).drop_last() =~= per_season@.take(i as int));
        assert(per_season@.take(i + 1).last() == per_season@[i as int]);
        let ghost before = out@;
        if nums.len() > 0 {
            let (lo, hi) = min_max(nums);
            let mut n: u64 = lo as u64;
            assert(gaps(season, nums@, lo as int, lo as int) =~= Seq::<(u32, u32)>::empty());
            while n <= hi as u64
                invariant
                    lo as u64 <= n <= hi as u64 + 1,
                    out@ == before + gaps(season, nums@, lo as int, n as int),
                decreases hi as u64 + 1 - n,
            {
                let x = n as u32;
                if !contains_u32(nums, x) {
                    out.push((season, x));
                }
                n = n + 1;
            }
            let ghost mid = out@;
            match total {
                Some(t) => {
                    if season == 1 && t > hi {
                        let mut k: u64 = hi as u64 + 1;
                        while k <= t as u64
                            invariant
                                hi < t,
                                season == 1,
                                total == Some(t),
                                hi as u64 + 1 <= k <= t as u64 + 1,
                                out@ == mid + continuation(season, hi, total).take(k - hi - 1),
                            decreases t as u64 + 1 - k,
                        {
                            let ghost c = continuation(season, hi, total);
                            assert(c == Seq::new((t - hi) as nat, |j: int| (season, (hi + 1 + j) as u32)));
                            assert(c[k - hi - 1] == (season, k as u32));
                            out.push((season, k as u32));
                            assert(c.take(k + 1 - hi - 1) =~= c.take(k - hi - 1).push((season, k as u32)));
                            k = k + 1;
                        }
                        assert(continuation(season, hi, total).take(t - hi) =~= continuation(season, hi, total));
                    }
                },
                None => {},
            }
            assert(out@ =~= before + season_wanted(season, nums@, total));
        } else {
            assert(out@ =~= before + season_wanted(season, nums@, total));
        }
        i = i + 1;
    }
    assert(per_season@.take(per_season@.len() as int) =~= per_season@);
    out
}

/// Why a season hunts number `n`: the season owns something, not `n`; `n` lies inside its
/// owned range, or past it only for season 1 and only up to a known total.
pub open spec fn hunt_reason(season: u32, nums: Seq<u32>, total: Option<u32>, n: u32) -> bool {
    &&& nums.len() > 0
    &&& !nums.contains(n)
    &&& seq_min(nums) <= n
    &&& (n < seq_max(nums) || (season == 1 && (total matches Some(t) && seq_max(nums) < n <= t)))
}

proof fn lemma_seq_bounds(s: Seq<u32>)
    requires
        s.len() > 0,
    ensures
        forall|i: int| 0 <= i < s.len() ==> seq_min(s) <= #[trigger] s[i] <= seq_max(s),
    decreases s.len(),
{
    if s.len() > 1 {
        lemma_seq_bounds(s.drop_last());
        assert forall|i: int| 0 <= i < s.len() implies seq_min(s) <= #[trigger] s[i] <= seq_max(s) by {
            if i < s.len() - 1 {
                assert(s[i] == s.drop_last()[i]);
            }
        }
    }
}

proof fn lemma_gaps_bounds(season: u32, nums: Seq<u32>, lo: int, n: int)
    requires
        0 <= lo,
        n <= u32::MAX + 1,
    ensures
        forall|k: int| 0 <= k < gaps(season, nums, lo, n).len() ==> {
            let g = #[trigger] gaps(season, nums, lo, n)[k];
            g.0 == season && lo <= g.1 < n && !nums.contains(g.1)
        },
    decreases n - lo,
{
    if n > lo {
        lemma_gaps_bounds(season, nums, lo, n - 1);
        let before = gaps(season, nums, lo, n - 1);
        let all = gaps(season, nums, lo, n);
        assert forall|k: int| 0 <= k < all.len() implies {
            let g = #[trigger] all[k];
            g.0 == season && lo <= g.1 < n && !nums.contains(g.1)
        } by {
            if k < before.len() {
                assert(all[k] == before[k]);
            }
        }
    }
}

proof fn lemma_season_wanted_reasons(season: u32, nums: Seq<u32>, total: Option<u32>)
    ensures
        forall|k: int| 0 <= k < season_wanted(season, nums, total).len() ==> {
            let w = #[trigger] season_wanted(season, nums, total)[k];
            w.0 == season && hunt_reason(season, nums, total, w.1)
        },
{
    if nums.len() > 0 {
        let lo = seq_min(nums) as int;
        let hi = seq_max(nums);
        lemma_seq_bounds(nums);
        lemma_gaps_bounds(season, nums, lo, hi + 1);
        let g = gaps(season, nums, lo, hi + 1);
        let c = continuation(season, hi, total);
        assert forall|k: int| 0 <= k < season_wanted(season, nums, total).len() implies {
            let w = #[trigger] season_wanted(season, nums, total)[k];
            w.0 == season && hunt_reason(season, nums, total, w.1)
        } by {
            let w = season_wanted(season, nums, total)[k];
            if k < g.len() {
                assert(w == g[k]);
                if w.1 == hi {
                    lemma_seq_max_in(nums);
                }
            } else {
                assert(w == c[k - g.len()]);
                if nums.contains(w.1) {
                    let j = choose|j: int| 0 <= j < nums.len() && nums[j] == w.1;
                    assert(nums[j] <= hi);
                }
            }
        }
    }
}

proof fn lemma_seq_max_in(s: Seq<u32>)
    requires
        s.len() > 0,
    ensures
        s.contains(seq_max(s)),
    decreases s.len(),
{
    if s.len() == 1 {
        assert(s[0] == seq_max(s));
    } else {
        lemma_seq_max_in(s.drop_last());
        if s.last() > seq_max(s.drop_last()) {
            assert(s[s.len() - 1] == seq_max(s));
        } else {
            let j = choose|j: int| 0 <= j < s.drop_last().len() && s.drop_last()[j] == seq_max(s.drop_last());
            assert(s[j] == seq_max(s));
        }
    }
}

proof fn lemma_gaps_complete(season: u32, nums: Seq<u32>, lo: int, n: int, m: int)
    requires
        lo <= m < n,
        0 <= m <= u32::MAX,
        !nums.contains(m as u32),
    ensures
        gaps(season, nums, lo, n).contains((season, m as u32)),
    decreases n - lo,
{
    let before = gaps(season, nums, lo, n - 1);
    if m < n - 1 {
        lemma_gaps_complete(season, nums, lo, n - 1, m);
        let k = choose|k: int| 0 <= k < before.len() && before[k] == (season, m as u32);
        if !nums.contains((n - 1) as u32) {
            assert(before.push((season, (n - 1) as u32))[k] == (season, m as u32));
        }
    } else {
        assert(before.push((season, (n - 1) as u32))[before.len() as int] == (season, m as u32));
    }
}

proof fn lemma_season_wanted_complete(season: u32, nums: Seq<u32>, total: Option<u32>, n: int)
    requires
        0 <= n <= u32::MAX,
        !nums.contains(n as u32),
        (exists|a: int| 0 <= a < nums.len() && nums[a] <= n) && (exists|b: int| 0 <= b < nums.len() && n <= nums[b])
        || (season == 1 && nums.len() > 0 && total is Some && n <= total->0
            && forall|a: int| 0 <= a < nums.len() ==> nums[a] < n),
    ensures
        season_wanted(season, nums, total).contains((season, n as u32)),
{
    lemma_seq_bounds(nums);
    lemma_seq_max_in(nums);
    let g = gaps(season, nums, seq_min(nums) as int, seq_max(nums) + 1);
    let c = continuation(season, seq_max(nums), total);
    let sw = season_wanted(season, nums, total);
    assert(sw == g + c);
    if (exists|a: int| 0 <= a < nums.len() && nums[a] <= n) && (exists|b: int| 0 <= b < nums.len() && n <= nums[b]) {
        let a = choose|a: int| 0 <= a < nums.len() && nums[a] <= n;
        let b = choose|b: int| 0 <= b < nums.len() && n <= nums[b];
        assert(seq_min(nums) <= nums[a] && nums[b] <= seq_max(nums));
        lemma_gaps_complete(season, nums, seq_min(nums) as int, seq_max(nums) + 1, n);
        let k = choose|k: int| 0 <= k < g.len() && g[k] == (season, n as u32);
        assert(sw[k] == (season, n as u32));
    } else {
        let mx = seq_max(nums);
        let k = choose|k: int| 0 <= k < nums.len() && nums[k] == mx;
        assert(nums[k] < n);
        let t = total->0;
        let idx = n - mx - 1;
        assert(c[idx] == (season, n as u32));
        assert(sw[g.len() + idx] == (season, n as u32));
    }
}

proof fn lemma_gaps_ordered(season: u32, nums: Seq<u32>, lo: int, n: int)
    requires
        0 <= lo,
        n <= u32::MAX + 1,
    ensures
        forall|k: int| 0 <= k < gaps(season, nums, lo, n).len() ==> (#[trigger] gaps(season, nums, lo, n)[k]).0 == season
            && lo <= gaps(season, nums, lo, n)[k].1 < n,
        forall|i: int, j: int| 0 <= i < j < gaps(season, nums, lo, n).len()
            ==> (#[trigger] gaps(season, nums, lo, n)[i]).1 < (#[trigger] gaps(season, nums, lo, n)[j]).1,
    decreases n - lo,
{
    if n > lo {
        lemma_gaps_ordered(season, nums, lo, n - 1);
        let before = gaps(season, nums, lo, n - 1);
        let g = gaps(season, nums, lo, n);
        if !nums.contains((n - 1) as u32) {
            let x: (u32, u32) = (season, (n - 1) as u32);
            assert(g == before.push(x));
            assert(x.1 == n - 1);
            assert forall|k: int| 0 <= k < g.len() implies (#[trigger] g[k]).0 == season && lo <= g[k].1 < n by {
                if k < before.len() { assert(g[k] == before[k]); }
            }
            assert forall|i: int, j: int| 0 <= i < j < g.len() implies (#[trigger] g[i]).1 < (#[trigger] g[j]).1 by {
                assert(g[i] == before[i]);
                if j < before.len() { assert(g[j] == before[j]); }
            }
        } else {
            assert(g == before);
        }
    }
}

/// A season's wanted numbers come in increasing order, each once, all in that season.
pub proof fn lemma_season_wanted_ordered(season: u32, nums: Seq<u32>, total: Option<u32>)
    ensures
        forall|k: int| 0 <= k < season_wanted(season, nums, total).len()
            ==> (#[trigger] season_wanted(season, nums, total)[k]).0 == season,
        forall|i: int, j: int| 0 <= i < j < season_wanted(season, nums, total).len()
            ==> (#[trigger] season_wanted(season, nums, total)[i]).1 < (#[trigger] season_wanted(season, nums, total)[j]).1,
{
    if nums.len() > 0 {
        let lo = seq_min(nums) as int;
        let hi = seq_max(nums) + 1;
        lemma_gaps_ordered(season, nums, lo, hi);
        let g = gaps(season, nums, lo, hi);
        let c = continuation(season, seq_max(nums), total);
        let sw = season_wanted(season, nums, total);
        assert(sw == g + c);
        assert forall|i: int, j: int| 0 <= i < j < sw.len() implies (#[trigger] sw[i]).1 < (#[trigger] sw[j]).1 by {
            if j < g.len() {
                assert(sw[i] == g[i] && sw[j] == g[j]);
            } else if i < g.len() {
                assert(sw[i] == g[i]);
                assert(sw[j] == c[j - g.len()]);
            } else {
                assert(sw[i] == c[i - g.len()] && sw[j] == c[j - g.len()]);
            }
        }
        assert forall|k: int| 0 <= k < sw.len() implies (#[trigger] sw[k]).0 == season by {
            if k < g.len() { assert(sw[k] == g[k]); } else { assert(sw[k] == c[k - g.len()]); }
        }
    }
}

/// The hunt misses nothing: for every season with owned episodes, each number between two
/// owned ones that the season does not own is wanted, and for season 1 each number past
/// everything owned up to a known total is wanted too.
pub proof fn lemma_wanted_numbers_complete(per_season: Seq<(u32, Vec<u32>)>, total: Option<u32>, i: int, n: int)
    requires
        0 <= i < per_season.len(),
        0 <= n <= u32::MAX,
        !per_season[i].1@.contains(n as u32),
        ({
            let nums = per_season[i].1@;
            ||| (exists|a: int| 0 <= a < nums.len() && nums[a] <= n)
                && (exists|b: int| 0 <= b < nums.len() && n <= nums[b])
            ||| (per_season[i].0 == 1 && nums.len() > 0 && total is Some && n <= total->0
                && forall|a: int| 0 <= a < nums.len() ==> nums[a] < n)
        }),
    ensures
        wanted_spec(per_season, total).contains((per_season[i].0, n as u32)),
    decreases per_season.len(),
{
    let p = per_season.drop_last();
    let w = wanted_spec(per_season, total);
    let before = wanted_spec(p, total);
    let last = per_season.last();
    let sw = season_wanted(last.0, last.1@, total);
    assert(w == before + sw);
    if i == per_season.len() - 1 {
        lemma_season_wanted_complete(last.0, last.1@, total, n);
        let k = choose|k: int| 0 <= k < sw.len() && sw[k] == (last.0, n as u32);
        assert(w[before.len() + k] == (last.0, n as u32));
    } else {
        assert(p[i] == per_season[i]);
        lemma_wanted_numbers_complete(p, total, i, n);
        let k = choose|k: int| 0 <= k < before.len() && before[k] == (per_season[i].0, n as u32);
        assert(w[k] == (per_season[i].0, n as u32));
    }
}

/// The hunt never asks for an owned episode, and never guesses unaired numbers: every wanted
/// number of a season lies inside that season's owned range, except that season 1 continues
/// past its highest owned number, and only up to a known total.
pub proof fn lemma_wanted_numbers_sound(per_season: Seq<(u32, Vec<u32>)>, total: Option<u32>)
    requires
        forall|i: int, j: int| 0 <= i < j < per_season.len() ==> (#[trigger] per_season[i]).0 != (#[trigger] per_season[j]).0,
    ensures
        forall|k: int| 0 <= k < wanted_spec(per_season, total).len() ==> {
            let w = #[trigger] wanted_spec(per_season, total)[k];
            exists|i: int| 0 <= i < per_season.len() && (#[trigger] per_season[i]).0 == w.0
                && hunt_reason(w.0, per_season[i].1@, total, w.1)
        },
        forall|k: int, i: int| 0 <= k < wanted_spec(per_season, total).len() && 0 <= i < per_season.len()
            && (#[trigger] per_season[i]).0 == (#[trigger] wanted_spec(per_season, total)[k]).0
            ==> !per_season[i].1@.contains(wanted_spec(per_season, total)[k].1),
    decreases per_season.len(),
{
    if per_season.len() > 0 {
        let p = per_season.drop_last();
        let last = per_season.last();
        assert forall|i: int, j: int| 0 <= i < j < p.len() implies (#[trigger] p[i]).0 != (#[trigger] p[j]).0 by {
            assert(p[i] == per_season[i] && p[j] == per_season[j]);
        }
        lemma_wanted_numbers_sound(p, total);
        lemma_season_wanted_reasons(last.0, last.1@, total);
        let before = wanted_spec(p, total);
        let sw = season_wanted(last.0, last.1@, total);
        assert(wanted_spec(per_season, total) == before + sw);
        assert forall|k: int| 0 <= k < wanted_spec(per_season, total).len() implies {
            let w = #[trigger] wanted_spec(per_season, total)[k];
            exists|i: int| 0 <= i < per_season.len() && (#[trigger] per_season[i]).0 == w.0
                && hunt_reason(w.0, per_season[i].1@, total, w.1)
        } by {
            let w = wanted_spec(per_season, total)[k];
            if k < before.len() {
                assert(w == before[k]);
                let i = choose|i: int| 0 <= i < p.len() && (#[trigger] p[i]).0 == w.0 && hunt_reason(w.0, p[i].1@, total, w.1);
                assert(per_season[i] == p[i]);
            } else {
                assert(w == sw[k - before.len()]);
                assert(per_season[per_season.len() - 1] == last);
            }
        }
        assert forall|k: int, i: int| 0 <= k < wanted_spec(per_season, total).len() && 0 <= i < per_season.len()
            && (#[trigger] per_season[i]).0 == (#[trigger] wanted_spec(per_season, total)[k]).0
            implies !per_season[i].1@.contains(wanted_spec(per_season, total)[k].1) by {
            let w = wanted_spec(per_season, total)[k];
            if k < before.len() {
                assert(w == before[k]);
                let i2 = choose|i2: int| 0 <= i2 < p.len() && (#[trigger] p[i2]).0 == w.0 && hunt_reason(w.0, p[i2].1@, total, w.1);
                assert(per_season[i2] == p[i2]);
                if i != i2 {
                    if i < i2 {
                        assert(per_season[i].0 != per_season[i2].0);
                    } else {
                        assert(per_season[i2].0 != per_season[i].0);
                    }
                }
            } else {
                assert(w == sw[k - before.len()]);
                let l = per_season.len() - 1;
                assert(per_season[l] == last);
                if i != l {
                    assert(per_season[i].0 != per_season[l].0);
                }
            }
        }
    }
}

// ---------------------------------------------------------------------------
// Preferred release group and resolution
// ---------------------------------------------------------------------------

/// An episode file on disk that votes for preferences and baselines wanted numbers.
/// Season 0 and missing-status rows never reach this struct.
pub struct Owned {
    pub season: u32,
    pub number: u32,
    pub group: Option<String>,
    pub resolution: Option<String>,
}

/// Lexicographic order of char sequences (as `String`'s `Ord` orders them).
pub open spec fn seq_lt(a: Seq<char>, b: Seq<char>) -> bool
    decreases a.len(),
{
    if a.len() == 0 {
        b.len() > 0
    } else if b.len() == 0 {
        false
    } else if a[0] != b[0] {
        a[0] < b[0]
    } else {
        seq_lt(a.drop_first(), b.drop_first())
    }
}

pub proof fn lemma_seq_lt_trans(a: Seq<char>, b: Seq<char>, c: Seq<char>)
    requires
        seq_lt(a, b),
        seq_lt(b, c),
    ensures
        seq_lt(a, c),
    decreases a.len(),
{
    if a.len() > 0 && b.len() > 0 && c.len() > 0 && a[0] == b[0] && b[0] == c[0] {
        lemma_seq_lt_trans(a.drop_first(), b.drop_first(), c.drop_first());
    }
}

pub proof fn lemma_seq_lt_asym(a: Seq<char>, b: Seq<char>)
    requires
        seq_lt(a, b),
    ensures
        !seq_lt(b, a),
    decreases a.len(),
{
    if a.len() > 0 && b.len() > 0 && a[0] == b[0] {
        lemma_seq_lt_asym(a.drop_first(), b.drop_first());
    }
}

pub proof fn lemma_seq_lt_total(a: Seq<char>, b: Seq<char>)
    requires
        a != b,
    ensures
        seq_lt(a, b) || seq_lt(b, a),
    decreases a.len(),
{
    if a.len() == 0 && b.len() == 0 {
        assert(a =~= b);
    } else if a.len() > 0 && b.len() > 0 && a[0] == b[0] {
        if a.drop_first() == b.drop_first() {
            assert(a =~= seq![a[0]] + a.drop_first());
            assert(b =~= seq![b[0]] + b.drop_first());
        }
        lemma_seq_lt_total(a.drop_first(), b.drop_first());
    }
}

proof fn lemma_seq_lt_skip(a: Seq<char>, b: Seq<char>, i: int)
    requires
        0 <= i <= a.len(),
        i <= b.len(),
        a.take(i) == b.take(i),
    ensures
        seq_lt(a, b) == seq_lt(a.skip(i), b.skip(i)),
    decreases i,
{
    if i > 0 {
        assert(a[0] == a.take(i)[0]);
        assert(b[0] == b.take(i)[0]);
        assert(a.drop_first().take(i - 1) =~= a.take(i).drop_first());
        assert(b.drop_first().take(i - 1) =~= b.take(i).drop_first());
        lemma_seq_lt_skip(a.drop_first(), b.drop_first(), i - 1);
        assert(a.drop_first().skip(i - 1) =~= a.skip(i));
        assert(b.drop_first().skip(i - 1) =~= b.skip(i));
    } else {
        assert(a.skip(0) =~= a);
        assert(b.skip(0) =~= b);
    }
}

fn seq_less(a: &[char], b: &[char]) -> (r: bool)
    ensures
        r == seq_lt(a@, b@),
{
    let mut i: usize = 0;
    while i < a.len() && i < b.len() && a[i] == b[i]
        invariant
            i <= a@.len(),
            i <= b@.len(),
            a@.take(i as int) == b@.take(i as int),
        decreases a@.len() - i,
    {
        assert(a@.take(i + 1) =~= a@.take(i as int).push(a@[i as int]));
        assert(b@.take(i + 1) =~= b@.take(i as int).push(b@[i as int]));
        i = i + 1;
    }
    proof {
        lemma_seq_lt_skip(a@, b@, i as int);
    }
    if i == a.len() {
        i < b.len()
    } else if i == b.len() {
        false
    } else {
        assert(a@.skip(i as int)[0] == a@[i as int]);
        assert(b@.skip(i as int)[0] == b@[i as int]);
        a[i] < b[i]
    }
}

/// The field an owned file votes with.
pub open spec fn picked(o: Owned, group: bool) -> Option<String> {
    if group { o.group } else { o.resolution }
}

/// The vote of one file: its value trimmed then lowercased; none when absent or blank.
pub open spec fn vote_key(o: Owned, group: bool) -> Option<Seq<char>> {
    match picked(o, group) {
        Some(v) => {
            let k = unicode_lowercase(trim(v@));
            if k.len() == 0 { None } else { Some(k) }
        },
        None => None,
    }
}

/// Votes for `k`.
pub open spec fn votes(os: Seq<Owned>, group: bool, k: Seq<char>) -> nat
    decreases os.len(),
{
    if os.len() == 0 {
        0
    } else {
        votes(os.drop_last(), group, k) + if vote_key(os.last(), group) == Some(k) { 1nat } else { 0nat }
    }
}

pub open spec fn pair_lt(a: (u32, u32), b: (u32, u32)) -> bool {
    a.0 < b.0 || (a.0 == b.0 && a.1 < b.1)
}

/// The earliest `(season, number)` among the files voting for `k`.
pub open spec fn first_vote(os: Seq<Owned>, group: bool, k: Seq<char>) -> (u32, u32)
    decreases os.len(),
{
    if os.len() == 0 {
        (0, 0)
    } else {
        let o = os.last();
        let prev = first_vote(os.drop_last(), group, k);
        if vote_key(o, group) == Some(k) {
            if votes(os.drop_last(), group, k) == 0 || pair_lt((o.season, o.number), prev) {
                (o.season, o.number)
            } else {
                prev
            }
        } else {
            prev
        }
    }
}

/// `k1` wins over `k2`: more votes; on a tie, the earlier episode; then the smaller value.
pub open spec fn beats(os: Seq<Owned>, group: bool, k1: Seq<char>, k2: Seq<char>) -> bool {
    let (c1, c2) = (votes(os, group, k1), votes(os, group, k2));
    let (e1, e2) = (first_vote(os, group, k1), first_vote(os, group, k2));
    c1 > c2 || (c1 == c2 && pair_lt(e1, e2)) || (c1 == c2 && e1 == e2 && seq_lt(k1, k2))
}

/// `r` is the modal vote: some file votes for it and it wins over every other vote; `None`
/// exactly when no file votes.
pub open spec fn is_modal(os: Seq<Owned>, group: bool, r: Option<Seq<char>>) -> bool {
    match r {
        None => forall|i: int| 0 <= i < os.len() ==> vote_key(#[trigger] os[i], group) is None,
        Some(k) => {
            &&& exists|i: int| 0 <= i < os.len() && vote_key(#[trigger] os[i], group) == Some(k)
            &&& forall|i: int| 0 <= i < os.len() ==> (vote_key(#[trigger] os[i], group) matches Some(k2)
                    ==> k2 == k || beats(os, group, k, k2))
        },
    }
}

proof fn lemma_votes_step(p: Seq<Owned>, o: Owned, group: bool, k: Seq<char>)
    ensures
        votes(p.push(o), group, k) == votes(p, group, k) + if vote_key(o, group) == Some(k) { 1nat } else { 0nat },
        first_vote(p.push(o), group, k) == (if vote_key(o, group) == Some(k) {
            if votes(p, group, k) == 0 || pair_lt((o.season, o.number), first_vote(p, group, k)) {
                (o.season, o.number)
            } else {
                first_vote(p, group, k)
            }
        } else {
            first_vote(p, group, k)
        }),
{
    assert(p.push(o).drop_last() =~= p);
    assert(p.push(o).last() == o);
}

proof fn lemma_votes_le(os: Seq<Owned>, group: bool, k: Seq<char>)
    ensures
        votes(os, group, k) <= os.len(),
    decreases os.len(),
{
    if os.len() > 0 {
        lemma_votes_le(os.drop_last(), group, k);
    }
}

proof fn lemma_votes_positive(os: Seq<Owned>, group: bool, k: Seq<char>)
    requires
        votes(os, group, k) > 0,
    ensures
        exists|i: int| 0 <= i < os.len() && vote_key(#[trigger] os[i], group) == Some(k),
    decreases os.len(),
{
    if vote_key(os.last(), group) == Some(k) {
        assert(os[os.len() - 1] == os.last());
    } else {
        lemma_votes_positive(os.drop_last(), group, k);
        let i = choose|i: int| 0 <= i < os.drop_last().len() && vote_key(#[trigger] os.drop_last()[i], group) == Some(k);
        assert(os[i] == os.drop_last()[i]);
    }
}

proof fn lemma_beats_order(os: Seq<Owned>, group: bool, a: Seq<char>, b: Seq<char>, c: Seq<char>)
    ensures
        beats(os, group, a, b) && beats(os, group, b, c) ==> beats(os, group, a, c),
        beats(os, group, a, b) ==> !beats(os, group, b, a),
        a != b ==> beats(os, group, a, b) || beats(os, group, b, a),
{
    if beats(os, group, a, b) && beats(os, group, b, c) && seq_lt(a, b) && seq_lt(b, c) {
        lemma_seq_lt_trans(a, b, c);
    }
    if seq_lt(a, b) {
        lemma_seq_lt_asym(a, b);
    }
    if a != b {
        lemma_seq_lt_total(a, b);
    }
}

/// One row of the tally: a vote value, its count and its earliest episode.
struct Tally {
    key: Vec<char>,
    count: usize,
    first: (u32, u32),
}

fn vote_of(o: &Owned, group: bool) -> (r: Option<Vec<char>>)
    ensures
        match r {
            Some(k) => vote_key(*o, group) == Some(k@),
            None => vote_key(*o, group) is None,
        },
{
    let v = if group { &o.group } else { &o.resolution };
    match v {
        Some(v) => {
            let t = crate::text::trim_chars(crate::text::chars_of(v.as_str()).as_slice());
            let k = crate::text::to_lowercase(t.as_slice());
            if k.len() == 0 { None } else { Some(k) }
        },
        None => None,
    }
}

/// The modal value of one owned-release field, lowercased for case-insensitive comparison
/// against classifier output. Rows without a value do not vote; ties break toward the value
/// carried by the earliest owned episode, then the smaller value.
pub fn modal_by(owned: &[Owned], group: bool) -> (r: Option<String>)
    ensures
        is_modal(owned@, group, match r { Some(s) => Some(s@), None => None }),
{
    let mut table: Vec<Tally> = Vec::new();
    let mut i: usize = 0;
    while i < owned.len()
        invariant
            i <= owned@.len(),
            forall|a: int| 0 <= a < table@.len() ==> {
                let t = #[trigger] table@[a];
                &&& t.count as nat == votes(owned@.take(i as int), group, t.key@)
                &&& t.count > 0
                &&& t.first == first_vote(owned@.take(i as int), group, t.key@)
            },
            forall|a: int, b: int| 0 <= a < table@.len() && 0 <= b < table@.len() && a != b
                ==> (#[trigger] table@[a]).key@ != (#[trigger] table@[b]).key@,
            forall|j: int| 0 <= j < i ==> (vote_key(#[trigger] owned@[j], group) matches Some(k)
                ==> exists|a: int| 0 <= a < table@.len() && (#[trigger] table@[a]).key@ == k),
            table@.len() <= i,
        decreases owned@.len() - i,
    {
        let o = &owned[i];
        let ghost p = owned@.take(i as int);
        let ghost q = owned@.take(i + 1);
        assert(q =~= p.push(owned@[i as int]));
        assert(*o == owned@[i as int]);
        match vote_of(o, group) {
            None => {
                assert forall|a: int| 0 <= a < table@.len() implies {
                    let t = #[trigger] table@[a];
                    &&& t.count as nat == votes(q, group, t.key@)
                    &&& t.first == first_vote(q, group, t.key@)
                } by {
                    lemma_votes_step(p, *o, group, table@[a].key@);
                }
                assert forall|j: int| 0 <= j < i + 1 implies (vote_key(#[trigger] owned@[j], group) matches Some(k)
                    ==> exists|a: int| 0 <= a < table@.len() && (#[trigger] table@[a]).key@ == k) by {}
            },
            Some(k) => {
                let mut a: usize = 0;
                let mut found: Option<usize> = None;
                while a < table.len() && found.is_none()
                    invariant
                        a <= table@.len(),
                        found matches Some(x) ==> x < table@.len() && table@[x as int].key@ == k@,
                        found is None ==> forall|b: int| 0 <= b < a ==> (#[trigger] table@[b]).key@ != k@,
                    decreases table@.len() - a + (if found is None { 1int } else { 0int }),
                {
                    if crate::text::seq_eq(table[a].key.as_slice(), k.as_slice()) {
                        found = Some(a);
                    } else {
                        a = a + 1;
                    }
                }
                let ghost t0 = table@;
                match found {
                    Some(x) => {
                        let old_first = table[x].first;
                        let here = (o.season, o.number);
                        let new_first = if o.season < old_first.0 || (o.season == old_first.0 && o.number < old_first.1) {
                            here
                        } else {
                            old_first
                        };
                        proof {
                            lemma_votes_le(p, group, k@);
                        }
                        let new_count = table[x].count + 1;
                        let key = crate::text::slice_chars(table[x].key.as_slice(), 0, table[x].key.len());
                        let ghost kx = key@;
                        table.set(x, Tally { key, count: new_count, first: new_first });
                        assert(table@.len() == t0.len());
                        assert(table@[x as int].key@ == k@);
                        assert(forall|b: int| 0 <= b < t0.len() && b != x ==> table@[b] == t0[b]);
                        proof {
                            lemma_votes_step(p, *o, group, k@);
                            assert(votes(q, group, k@) == votes(p, group, k@) + 1);
                            assert(table@[x as int].count as nat == votes(q, group, k@));
                            assert(table@[x as int].first == first_vote(q, group, k@));
                        }
                        assert forall|b: int| 0 <= b < table@.len() implies {
                            let t = #[trigger] table@[b];
                            &&& t.count as nat == votes(q, group, t.key@)
                            &&& t.count > 0
                            &&& t.first == first_vote(q, group, t.key@)
                        } by {
                            lemma_votes_step(p, *o, group, table@[b].key@);
                            lemma_votes_le(p, group, table@[b].key@);
                            if b != x {
                                assert(t0[b].key@ != k@);
                            }
                        }
                        assert forall|b: int, c: int| 0 <= b < table@.len() && 0 <= c < table@.len() && b != c
                            implies (#[trigger] table@[b]).key@ != (#[trigger] table@[c]).key@ by {
                            assert(t0[b].key@ != t0[c].key@);
                        }
                        assert forall|j: int| 0 <= j < i + 1 implies (vote_key(#[trigger] owned@[j], group) matches Some(kk)
                            ==> exists|c: int| 0 <= c < table@.len() && (#[trigger] table@[c]).key@ == kk) by {
                            if j < i {
                                if let Some(kk) = vote_key(owned@[j], group) {
                                    let c = choose|c: int| 0 <= c < t0.len() && (#[trigger] t0[c]).key@ == kk;
                                    assert(table@[c].key@ == kk);
                                }
                            } else {
                                assert(table@[x as int].key@ == k@);
                            }
                        }
                    },
                    None => {
                        proof {
                            assert(votes(p, group, k@) == 0) by {
                                if votes(p, group, k@) > 0 {
                                    lemma_votes_positive(p, group, k@);
                                    let j = choose|j: int| 0 <= j < p.len() && vote_key(#[trigger] p[j], group) == Some(k@);
                                    assert(p[j] == owned@[j]);
                                    let c = choose|c: int| 0 <= c < t0.len() && (#[trigger] t0[c]).key@ == k@;
                                }
                            }
                        }
                        table.push(Tally { key: k, count: 1, first: (o.season, o.number) });
                        assert forall|b: int| 0 <= b < table@.len() implies {
                            let t = #[trigger] table@[b];
                            &&& t.count as nat == votes(q, group, t.key@)
                            &&& t.count > 0
                            &&& t.first == first_vote(q, group, t.key@)
                        } by {
                            lemma_votes_step(p, *o, group, table@[b].key@);
                            if b < t0.len() {
                                assert(t0[b].key@ != table@[t0.len() as int].key@);
                            }
                        }
                        assert forall|b: int, c: int| 0 <= b < table@.len() && 0 <= c < table@.len() && b != c
                            implies (#[trigger] table@[b]).key@ != (#[trigger] table@[c]).key@ by {
                            if b < t0.len() && c < t0.len() {
                                assert(t0[b].key@ != t0[c].key@);
                            }
                        }
                        assert forall|j: int| 0 <= j < i + 1 implies (vote_key(#[trigger] owned@[j], group) matches Some(kk)
                            ==> exists|c: int| 0 <= c < table@.len() && (#[trigger] table@[c]).key@ == kk) by {
                            if j < i {
                                if let Some(kk) = vote_key(owned@[j], group) {
                                    let c = choose|c: int| 0 <= c < t0.len() && (#[trigger] t0[c]).key@ == kk;
                                    assert(table@[c].key@ == kk);
                                }
                            } else {
                                assert(table@[t0.len() as int].key@ == k@);
                            }
                        }
                    },
                }
            },
        }
        i = i + 1;
    }
    let ghost os = owned@;
    assert(owned@.take(owned@.len() as int) =~= os);
    if table.len() == 0 {
        assert forall|j: int| 0 <= j < os.len() implies vote_key(#[trigger] os[j], group) is None by {
            if let Some(kk) = vote_key(os[j], group) {
                let c = choose|c: int| 0 <= c < table@.len() && (#[trigger] table@[c]).key@ == kk;
            }
        }
        return None;
    }
    let mut best: usize = 0;
    let mut a: usize = 1;
    while a < table.len()
        invariant
            1 <= a <= table@.len(),
            best < a,
            forall|b: int| 0 <= b < table@.len() ==> {
                let t = #[trigger] table@[b];
                &&& t.count as nat == votes(os, group, t.key@)
                &&& t.first == first_vote(os, group, t.key@)
            },
            forall|b: int, c: int| 0 <= b < table@.len() && 0 <= c < table@.len() && b != c
                ==> (#[trigger] table@[b]).key@ != (#[trigger] table@[c]).key@,
            forall|b: int| 0 <= b < a && b != best ==> beats(os, group, table@[best as int].key@, (#[trigger] table@[b]).key@),
        decreases table@.len() - a,
    {
        let cur = &table[a];
        let bt = &table[best];
        let wins = cur.count > bt.count
            || (cur.count == bt.count && (cur.first.0 < bt.first.0 || (cur.first.0 == bt.first.0 && cur.first.1 < bt.first.1)))
            || (cur.count == bt.count && cur.first.0 == bt.first.0 && cur.first.1 == bt.first.1 && seq_less(cur.key.as_slice(), bt.key.as_slice()));
        let ghost kb = table@[best as int].key@;
        let ghost kc = table@[a as int].key@;
        assert(wins == beats(os, group, kc, kb));
        if wins {
            assert forall|b: int| 0 <= b < a + 1 && b != a implies beats(os, group, kc, (#[trigger] table@[b]).key@) by {
                if b != best {
                    lemma_beats_order(os, group, kc, kb, table@[b].key@);
                }
            }
            best = a;
        } else {
            proof {
                lemma_beats_order(os, group, kb, kc, kb);
            }
        }
        a = a + 1;
    }
    let ghost kb = table@[best as int].key@;
    proof {
        lemma_votes_positive(os, group, kb);
        assert forall|j: int| 0 <= j < os.len() implies (vote_key(#[trigger] os[j], group) matches Some(k2)
            ==> k2 == kb || beats(os, group, kb, k2)) by {
            if let Some(k2) = vote_key(os[j], group) {
                let c = choose|c: int| 0 <= c < table@.len() && (#[trigger] table@[c]).key@ == k2;
                if c != best {
                    assert(table@[c].key@ == k2);
                }
            }
        }
    }
    Some(crate::text::string_of(table[best].key.as_slice()))
}

pub fn modal_group(owned: &[Owned]) -> (r: Option<String>)
    ensures
        is_modal(owned@, true, match r { Some(s) => Some(s@), None => None }),
{
    modal_by(owned, true)
}

pub fn modal_resolution(owned: &[Owned]) -> (r: Option<String>)
    ensures
        is_modal(owned@, false, match r { Some(s) => Some(s@), None => None }),
{
    modal_by(owned, false)
}

// ---------------------------------------------------------------------------
// Size band
// ---------------------------------------------------------------------------

pub open spec fn le_u64() -> spec_fn(u64, u64) -> bool {
    |a: u64, b: u64| a <= b
}

/// The median of the owned sizes: the middle element (the upper one of an even count)
/// once sorted.
pub open spec fn median(sizes: Seq<u64>) -> u64 {
    sizes.sort_by(le_u64())[(sizes.len() / 2) as int]
}

proof fn lemma_le_u64_total()
    ensures
        vstd::relations::total_ordering(le_u64()),
{
}

/// `v` sorted ascending (insertion sort).
fn sorted_u64(v: &[u64]) -> (r: Vec<u64>)
    ensures
        r@ == v@.sort_by(le_u64()),
{
    let mut out: Vec<u64> = Vec::new();
    let mut i: usize = 0;
    assert(v@.take(0) =~= Seq::<u64>::empty());
    while i < v.len()
        invariant
            i <= v@.len(),
            vstd::relations::sorted_by(out@, le_u64()),
            out@.to_multiset() == v@.take(i as int).to_multiset(),
            out@.len() == i,
        decreases v@.len() - i,
    {
        let x = v[i];
        let mut j: usize = 0;
        while j < out.len() && out[j] <= x
            invariant
                j <= out@.len(),
                forall|k: int| 0 <= k < j ==> out@[k] <= x,
            decreases out@.len() - j,
        {
            j = j + 1;
        }
        let ghost before = out@;
        out.insert(j, x);
        proof {
            assert(v@.take(i + 1) =~= v@.take(i as int).push(x));
            assert forall|a: int, b: int| 0 <= a < b < out@.len() implies #[trigger] (le_u64())(out@[a], out@[b]) by {
                if b < j {
                } else if b == j {
                } else if a < j {
                    assert(before[a] <= x);
                    assert(before[j as int] > x);
                    assert((le_u64())(before[a], before[b - 1]));
                } else if a == j {
                    assert(before[j as int] > x);
                    if j < b - 1 {
                        assert((le_u64())(before[j as int], before[b - 1]));
                    }
                } else {
                    assert((le_u64())(before[a - 1], before[b - 1]));
                }
            }
        }
        i = i + 1;
    }
    proof {
        assert(v@.take(v@.len() as int) =~= v@);
        lemma_le_u64_total();
        v@.lemma_sort_by_ensures(le_u64());
        vstd::seq_lib::lemma_sorted_unique(out@, v@.sort_by(le_u64()), le_u64());
    }
    out
}

/// The median owned size ±30%, as displayed context for the hunt (never a filter).
pub fn size_band(sizes: &[u64]) -> (r: Option<(u64, u64)>)
    requires
        sizes@.len() > 0 ==> median(sizes@) * 130 <= u64::MAX,
    ensures
        sizes@.len() == 0 ==> r is None,
        sizes@.len() > 0 ==> r == Some(((median(sizes@) * 70 / 100) as u64, (median(sizes@) * 130 / 100) as u64)),
{
    if sizes.len() == 0 {
        return None;
    }
    let sorted = sorted_u64(sizes);
    proof {
        lemma_le_u64_total();
        sizes@.lemma_sort_by_ensures(le_u64());
    }
    assert(sorted@.len() == sizes@.len()) by {
        assert(sorted@.to_multiset().len() == sizes@.to_multiset().len());
    }
    let m = sorted[sorted.len() / 2];
    Some((m * 70 / 100, m * 130 / 100))
}

// ---------------------------------------------------------------------------
// Search hits and the strict filter
// ---------------------------------------------------------------------------

/// One `<item>` of the RSS feed, every field as text (absent fields empty).
#[derive(Debug, Clone, Default, PartialEq)]
pub struct RawItem {
    pub title: String,
    pub link: String,
    pub guid: String,
    pub info_hash: String,
    pub size: String,
    pub seeders: String,
}

/// A single Nyaa search result row.
#[derive(Debug, Clone, PartialEq)]
pub struct NyaaHit {
    pub title: String,
    pub page_url: String,
    pub torrent_url: Option<String>,
    pub info_hash: Option<String>,
    pub size_bytes: u64,
    pub seeders: u32,
}

/// One strict Nyaa match for a wanted episode.
#[derive(Debug, Clone, PartialEq)]
pub struct WantedHit {
    pub title: String,
    pub page_url: String,
    pub torrent_url: Option<String>,
    pub info_hash: Option<String>,
    pub size_bytes: u64,
    pub seeders: u32,
}

/// A missing episode and its strict matches, best (highest seeders) first. Empty `hits`
/// means no strict match: shown as a "no strict match" row, never silently dropped.
#[derive(Debug, Clone, PartialEq)]
pub struct WantedEpisode {
    pub season: u32,
    pub number: u32,
    pub hits: Vec<WantedHit>,
}

/// Everything a feed subscription needs, derived from the owned episodes.
#[derive(Debug, Clone, PartialEq)]
pub struct FeedDerivation {
    pub feed_url: String,
    pub group: Option<String>,
    pub resolution: Option<String>,
}

pub open spec fn nonempty(s: Seq<char>) -> Option<Seq<char>> {
    if s.len() == 0 { None } else { Some(s) }
}

/// The hit an RSS item gives: fields trimmed; the view page (`guid`) preferred over the
/// download link as the page, falling back to the link; no hit when both are empty.
pub open spec fn item_hit(it: RawItem, h: NyaaHit) -> bool {
    let guid = trim(it.guid@);
    let link = trim(it.link@);
    let page = if guid.len() == 0 { link } else { guid };
    &&& h.title@ == trim(it.title@)
    &&& h.page_url@ == page
    &&& crate::parser::opt_str(h.torrent_url) == nonempty(link)
    &&& crate::parser::opt_str(h.info_hash) == nonempty(trim(it.info_hash@))
    &&& h.size_bytes as nat == size_bytes(trim(it.size@))
    &&& h.seeders as nat == (match parse_unsigned(trim(it.seeders@), u32::MAX as nat) { Some(v) => v, None => 0 })
}

fn trimmed(s: &String) -> (r: Vec<char>)
    ensures
        r@ == trim(s@),
{
    crate::text::trim_chars(crate::text::chars_of(s.as_str()).as_slice())
}

fn opt_nonempty(v: Vec<char>) -> (r: Option<String>)
    ensures
        crate::parser::opt_str(r) == nonempty(v@),
{
    if v.len() == 0 { None } else { Some(crate::text::string_of(v.as_slice())) }
}

/// The hit of one RSS item, or `None` when it has neither a view page nor a link.
pub fn hit_from_item(it: &RawItem) -> (r: Option<NyaaHit>)
    ensures
        trim(it.guid@).len() == 0 && trim(it.link@).len() == 0 ==> r is None,
        !(trim(it.guid@).len() == 0 && trim(it.link@).len() == 0) ==> (r matches Some(h) && item_hit(*it, h)),
{
    let title = trimmed(&it.title);
    let link = trimmed(&it.link);
    let guid = trimmed(&it.guid);
    let info_hash = trimmed(&it.info_hash);
    let size = trimmed(&it.size);
    let seeders = trimmed(&it.seeders);
    let page = if guid.len() == 0 { crate::text::slice_chars(link.as_slice(), 0, link.len()) } else { guid };
    if page.len() == 0 {
        return None;
    }
    let bytes = parse_size(crate::text::string_of(size.as_slice()).as_str());
    let seeders = match crate::text::parse_u32(seeders.as_slice()) {
        Some(v) => v,
        None => 0,
    };
    let h = NyaaHit {
        title: crate::text::string_of(title.as_slice()),
        page_url: crate::text::string_of(page.as_slice()),
        torrent_url: opt_nonempty(link),
        info_hash: opt_nonempty(info_hash),
        size_bytes: bytes,
        seeders,
    };
    assert(h.title@ == trim(it.title@));
    assert(h.page_url@ == (if trim(it.guid@).len() == 0 { trim(it.link@) } else { trim(it.guid@) }));
    assert(h.size_bytes as nat == size_bytes(trim(it.size@)));
    assert(h.seeders as nat == (match parse_unsigned(trim(it.seeders@), u32::MAX as nat) { Some(v) => v, None => 0 }));
    Some(h)
}

/// A classified title passes the strict filter: a single episode with the wanted number,
/// and the preferred group and resolution where there are preferences.
pub open spec fn strict_pass(single: Option<SingleModel>, number: u32, group: Option<Seq<char>>, res: Option<Seq<char>>) -> bool {
    match single {
        Some(s) => {
            &&& s.episode == number
            &&& (group matches Some(g) ==> s.group == Some(g))
            &&& (res matches Some(r) ==> s.resolution == Some(r))
        },
        None => false,
    }
}

fn same_text(a: &Option<String>, b: &String) -> (r: bool)
    ensures
        r == (crate::parser::opt_str(*a) == Some(b@)),
{
    match a {
        Some(x) => crate::text::eq_str(crate::text::chars_of(x.as_str()).as_slice(), b.as_str()),
        None => false,
    }
}

/// Whether a classification passes the strict filter.
pub fn strict_keep(single: &Option<SingleEpisode>, number: u32, group: &Option<String>, res: &Option<String>) -> (r: bool)
    ensures
        r == strict_pass(match single { Some(s) => Some(s.model()), None => None }, number,
            crate::parser::opt_str(*group), crate::parser::opt_str(*res)),
{
    match single {
        Some(s) => {
            if s.episode != number {
                return false;
            }
            let g_ok = match group {
                Some(g) => same_text(&s.group, g),
                None => true,
            };
            let r_ok = match res {
                Some(r) => same_text(&s.resolution, r),
                None => true,
            };
            g_ok && r_ok
        },
        None => false,
    }
}

pub open spec fn with_seeders(v: u32) -> spec_fn(WantedHit) -> bool {
    |h: WantedHit| h.seeders == v
}

/// `r` is `input` ordered by seeders, highest first, hits with equal seeders keeping their
/// order (a stable sort).
pub open spec fn by_seeders_desc(input: Seq<WantedHit>, r: Seq<WantedHit>) -> bool {
    &&& forall|i: int, j: int| 0 <= i < j < r.len() ==> (#[trigger] r[i]).seeders >= (#[trigger] r[j]).seeders
    &&& forall|v: u32| #[trigger] r.filter(with_seeders(v)) == input.filter(with_seeders(v))
}

proof fn lemma_filter_none(s: Seq<WantedHit>, v: u32)
    requires
        forall|k: int| 0 <= k < s.len() ==> (#[trigger] s[k]).seeders != v,
    ensures
        s.filter(with_seeders(v)) == Seq::<WantedHit>::empty(),
    decreases s.len(),
{
    reveal(Seq::filter);
    if s.len() > 0 {
        assert forall|k: int| 0 <= k < s.drop_last().len() implies (#[trigger] s.drop_last()[k]).seeders != v by {
            assert(s.drop_last()[k] == s[k]);
        }
        lemma_filter_none(s.drop_last(), v);
        assert(s.last() == s[s.len() - 1]);
    }
}

proof fn lemma_filter_step(s: Seq<WantedHit>, x: WantedHit, v: u32)
    ensures
        s.push(x).filter(with_seeders(v)) == (if x.seeders == v { s.filter(with_seeders(v)).push(x) } else { s.filter(with_seeders(v)) }),
{
    reveal(Seq::filter);
    assert(s.push(x).drop_last() =~= s);
}

/// Hits ordered by seeders, highest first; equal seeders keep their order.
pub fn order_by_seeders(hits: Vec<WantedHit>) -> (r: Vec<WantedHit>)
    ensures
        by_seeders_desc(hits@, r@),
{
    let mut out: Vec<WantedHit> = Vec::new();
    let mut i: usize = 0;
    let n = hits.len();
    let ghost input = hits@;
    let mut rest = hits;
    assert(input.take(0) =~= Seq::<WantedHit>::empty());
    assert(input.skip(0) =~= input);
    while i < n
        invariant
            n == input.len(),
            i <= n,
            rest@ == input.skip(i as int),
            forall|a: int, b: int| 0 <= a < b < out@.len() ==> (#[trigger] out@[a]).seeders >= (#[trigger] out@[b]).seeders,
            forall|v: u32| #[trigger] out@.filter(with_seeders(v)) == input.take(i as int).filter(with_seeders(v)),
        decreases n - i,
    {
        let x = rest.remove(0);
        assert(x == input[i as int]);
        assert(rest@ =~= input.skip(i + 1));
        let mut j: usize = 0;
        while j < out.len() && out[j].seeders >= x.seeders
            invariant
                j <= out@.len(),
                forall|k: int| 0 <= k < j ==> (#[trigger] out@[k]).seeders >= x.seeders,
            decreases out@.len() - j,
        {
            j = j + 1;
        }
        let ghost a = out@;
        out.insert(j, x);
        proof {
            assert(input.take(i + 1) =~= input.take(i as int).push(input[i as int]));
            assert(out@ =~= a.take(j as int) + seq![input[i as int]] + a.skip(j as int));
            assert(a =~= a.take(j as int) + a.skip(j as int));
            assert forall|v: u32| #[trigger] out@.filter(with_seeders(v)) == input.take(i + 1).filter(with_seeders(v)) by {
                lemma_filter_step(input.take(i as int), input[i as int], v);
                Seq::filter_distributes_over_add(a.take(j as int) + seq![input[i as int]], a.skip(j as int), with_seeders(v));
                Seq::filter_distributes_over_add(a.take(j as int), seq![input[i as int]], with_seeders(v));
                Seq::filter_distributes_over_add(a.take(j as int), a.skip(j as int), with_seeders(v));
                lemma_filter_step(Seq::<WantedHit>::empty(), input[i as int], v);
                assert(Seq::<WantedHit>::empty().push(input[i as int]) =~= seq![input[i as int]]);
                assert(Seq::<WantedHit>::empty().filter(with_seeders(v)) =~= Seq::<WantedHit>::empty()) by {
                    reveal(Seq::filter);
                }
                if input[i as int].seeders == v {
                    assert forall|k: int| 0 <= k < a.skip(j as int).len() implies (#[trigger] a.skip(j as int)[k]).seeders != v by {
                        assert(a.skip(j as int)[k] == a[j + k]);
                    }
                    lemma_filter_none(a.skip(j as int), v);
                }
            }
            assert forall|p: int, q: int| 0 <= p < q < out@.len() implies (#[trigger] out@[p]).seeders >= (#[trigger] out@[q]).seeders by {
                if q < j {
                } else if q == j {
                } else if p < j {
                    assert(a[p].seeders >= x.seeders);
                } else if p == j {
                    assert(a[j as int].seeders < x.seeders);
                    if j < q - 1 {
                        assert(a[j as int].seeders >= a[q - 1].seeders);
                    }
                } else {
                    assert(a[p - 1].seeders >= a[q - 1].seeders);
                }
            }
        }
        i = i + 1;
    }
    assert(input.take(n as int) =~= input);
    out
}

// ---------------------------------------------------------------------------
// The hunt for missing episodes
// ---------------------------------------------------------------------------

pub open spec fn owned_of_episodes(season: u32, eps: Seq<EpisodeRow>) -> Seq<Owned>
    decreases eps.len(),
{
    if eps.len() == 0 {
        Seq::<Owned>::empty()
    } else {
        let rest = owned_of_episodes(season, eps.drop_last());
        let e = eps.last();
        if e.status == EpisodeStatus::Missing {
            rest
        } else {
            rest.push(Owned { season, number: e.number, group: e.release_group, resolution: e.resolution })
        }
    }
}

/// The owned files that vote and baseline: every episode on disk outside season 0, season
/// by season in order.
pub open spec fn owned_spec(seasons: Seq<SeasonRow>) -> Seq<Owned>
    decreases seasons.len(),
{
    if seasons.len() == 0 {
        Seq::<Owned>::empty()
    } else {
        let se = seasons.last();
        owned_spec(seasons.drop_last()) + if se.number == 0 {
            Seq::<Owned>::empty()
        } else {
            owned_of_episodes(se.number, se.episodes@)
        }
    }
}

fn clone_opt(o: &Option<String>) -> (r: Option<String>)
    ensures
        r == *o,
{
    match o {
        Some(s) => Some(s.clone()),
        None => None,
    }
}

/// Episodes on disk that vote for preferences and baseline wanted numbers: season 0 and
/// missing rows are left out.
pub fn owned_episodes(seasons: &[SeasonRow]) -> (r: Vec<Owned>)
    ensures
        r@ == owned_spec(seasons@),
{
    let mut out: Vec<Owned> = Vec::new();
    let mut i: usize = 0;
    while i < seasons.len()
        invariant
            i <= seasons@.len(),
            out@ == owned_spec(seasons@.take(i as int)),
        decreases seasons@.len() - i,
    {
        let se = &seasons[i];
        assert(seasons@.take(i + 1).drop_last() =~= seasons@.take(i as int));
        assert(seasons@.take(i + 1).last() == seasons@[i as int]);
        let ghost before = out@;
        if se.number != 0 {
            let mut k: usize = 0;
            while k < se.episodes.len()
                invariant
                    k <= se.episodes@.len(),
                    se.number != 0,
                    out@ == before + owned_of_episodes(se.number, se.episodes@.take(k as int)),
                decreases se.episodes@.len() - k,
            {
                let e = &se.episodes[k];
                assert(se.episodes@.take(k + 1).drop_last() =~= se.episodes@.take(k as int));
                assert(se.episodes@.take(k + 1).last() == se.episodes@[k as int]);
                match e.status {
                    EpisodeStatus::Missing => {},
                    _ => {
                        out.push(Owned {
                            season: se.number,
                            number: e.number,
                            group: clone_opt(&e.release_group),
                            resolution: clone_opt(&e.resolution),
                        });
                    },
                }
                k = k + 1;
            }
            assert(se.episodes@.take(se.episodes@.len() as int) =~= se.episodes@);
        }
        assert(out@ =~= owned_spec(seasons@.take(i + 1)));
        i = i + 1;
    }
    assert(seasons@.take(seasons@.len() as int) =~= seasons@);
    out
}

/// The episode numbers owned in season `s`, in order.
pub open spec fn numbers_of(os: Seq<Owned>, s: u32) -> Seq<u32>
    decreases os.len(),
{
    if os.len() == 0 {
        Seq::<u32>::empty()
    } else {
        let r = numbers_of(os.drop_last(), s);
        if os.last().season == s { r.push(os.last().number) } else { r }
    }
}

/// `r` lists every owned season once, ascending, each with its owned numbers in order.
pub open spec fn grouped_by_season(os: Seq<Owned>, r: Seq<(u32, Vec<u32>)>) -> bool {
    &&& forall|i: int, j: int| 0 <= i < j < r.len() ==> (#[trigger] r[i]).0 < (#[trigger] r[j]).0
    &&& forall|i: int| 0 <= i < r.len() ==> (#[trigger] r[i]).1@ == numbers_of(os, r[i].0) && r[i].1@.len() > 0
    &&& forall|k: int| 0 <= k < os.len() ==> exists|i: int| 0 <= i < r.len() && (#[trigger] r[i]).0 == (#[trigger] os[k]).season
}

proof fn lemma_numbers_step(p: Seq<Owned>, o: Owned, s: u32)
    ensures
        numbers_of(p.push(o), s) == (if o.season == s { numbers_of(p, s).push(o.number) } else { numbers_of(p, s) }),
{
    assert(p.push(o).drop_last() =~= p);
    assert(p.push(o).last() == o);
}

proof fn lemma_numbers_none(p: Seq<Owned>, s: u32)
    requires
        forall|k: int| 0 <= k < p.len() ==> (#[trigger] p[k]).season != s,
    ensures
        numbers_of(p, s) == Seq::<u32>::empty(),
    decreases p.len(),
{
    if p.len() > 0 {
        assert forall|k: int| 0 <= k < p.drop_last().len() implies (#[trigger] p.drop_last()[k]).season != s by {
            assert(p.drop_last()[k] == p[k]);
        }
        lemma_numbers_none(p.drop_last(), s);
        assert(p.last() == p[p.len() - 1]);
    }
}

/// The owned numbers grouped by season, seasons ascending.
pub fn per_season(owned: &[Owned]) -> (r: Vec<(u32, Vec<u32>)>)
    ensures
        grouped_by_season(owned@, r@),
{
    let mut out: Vec<(u32, Vec<u32>)> = Vec::new();
    let mut i: usize = 0;
    while i < owned.len()
        invariant
            i <= owned@.len(),
            grouped_by_season(owned@.take(i as int), out@),
        decreases owned@.len() - i,
    {
        let o = &owned[i];
        let ghost p = owned@.take(i as int);
        let ghost q = owned@.take(i + 1);
        assert(q =~= p.push(owned@[i as int]));
        let mut k: usize = 0;
        while k < out.len() && out[k].0 < o.season
            invariant
                k <= out@.len(),
                forall|m: int| 0 <= m < k ==> (#[trigger] out@[m]).0 < o.season,
            decreases out@.len() - k,
        {
            k = k + 1;
        }
        let ghost a = out@;
        if k < out.len() && out[k].0 == o.season {
            let (s0, mut nums) = out.remove(k);
            let ghost old_nums = nums@;
            nums.push(o.number);
            out.insert(k, (s0, nums));
            proof {
                assert forall|m: int| 0 <= m < a.len() implies out@[m].0 == a[m].0 by {
                    if m != k {
                        assert(out@[m] == a[m]);
                    }
                }
                assert forall|m: int| 0 <= m < out@.len() implies (#[trigger] out@[m]).1@ == numbers_of(q, out@[m].0) && out@[m].1@.len() > 0 by {
                    lemma_numbers_step(p, owned@[i as int], out@[m].0);
                    if m != k {
                        assert(out@[m] == a[m]);
                        assert(a[m].0 != a[k as int].0);
                    }
                }
                assert forall|c: int| 0 <= c < q.len() implies exists|m: int| 0 <= m < out@.len() && (#[trigger] out@[m]).0 == (#[trigger] q[c]).season by {
                    if c < i {
                        assert(q[c] == p[c]);
                        let m = choose|m: int| 0 <= m < a.len() && (#[trigger] a[m]).0 == p[c].season;
                        assert(out@[m].0 == a[m].0);
                    } else {
                        assert(out@[k as int].0 == q[c].season);
                    }
                }
            }
        } else {
            proof {
                assert forall|c: int| 0 <= c < p.len() implies (#[trigger] p[c]).season != o.season by {
                    let m = choose|m: int| 0 <= m < a.len() && (#[trigger] a[m]).0 == p[c].season;
                    if m < k {
                    } else if m == k {
                    } else {
                        assert(a[k as int].0 < a[m].0);
                    }
                }
                lemma_numbers_none(p, o.season);
            }
            let mut nums: Vec<u32> = Vec::new();
            nums.push(o.number);
            out.insert(k, (o.season, nums));
            proof {
                assert forall|m: int| 0 <= m < out@.len() implies (#[trigger] out@[m]).1@ == numbers_of(q, out@[m].0) && out@[m].1@.len() > 0 by {
                    lemma_numbers_step(p, owned@[i as int], out@[m].0);
                    if m < k {
                        assert(out@[m] == a[m]);
                    } else if m > k {
                        assert(out@[m] == a[m - 1]);
                        assert(a[m - 1].0 > o.season) by {
                            if m - 1 > k {
                                assert(a[k as int].0 < a[m - 1].0);
                            }
                        }
                    } else {
                        assert(Seq::<u32>::empty().push(o.number) =~= seq![o.number]);
                    }
                }
                assert forall|x: int, y: int| 0 <= x < y < out@.len() implies (#[trigger] out@[x]).0 < (#[trigger] out@[y]).0 by {
                    if y < k {
                        assert(out@[x] == a[x] && out@[y] == a[y]);
                    } else if y == k {
                        assert(out@[x] == a[x]);
                    } else if x < k {
                        assert(out@[x] == a[x] && out@[y] == a[y - 1]);
                        if k < y - 1 {
                            assert(a[k as int].0 < a[y - 1].0);
                        }
                    } else if x == k {
                        assert(out@[y] == a[y - 1]);
                        if k < y - 1 {
                            assert(a[k as int].0 < a[y - 1].0);
                        }
                    } else {
                        assert(out@[x] == a[x - 1] && out@[y] == a[y - 1]);
                    }
                }
                assert forall|c: int| 0 <= c < q.len() implies exists|m: int| 0 <= m < out@.len() && (#[trigger] out@[m]).0 == (#[trigger] q[c]).season by {
                    if c < i {
                        assert(q[c] == p[c]);
                        let m = choose|m: int| 0 <= m < a.len() && (#[trigger] a[m]).0 == p[c].season;
                        if m < k {
                            assert(out@[m] == a[m]);
                        } else {
                            assert(out@[m + 1] == a[m]);
                        }
                    } else {
                        assert(out@[k as int].0 == q[c].season);
                    }
                }
            }
        }
        i = i + 1;
    }
    assert(owned@.take(owned@.len() as int) =~= owned@);
    out
}

/// The distinct values of `s` in the order they first appear.
pub open spec fn first_seen(s: Seq<u32>) -> Seq<u32>
    decreases s.len(),
{
    if s.len() == 0 {
        Seq::<u32>::empty()
    } else {
        let d = first_seen(s.drop_last());
        if d.contains(s.last()) { d } else { d.push(s.last()) }
    }
}

pub open spec fn numbers_wanted(wanted: Seq<(u32, u32)>) -> Seq<u32> {
    wanted.map_values(|w: (u32, u32)| w.1)
}

/// The numbers the hunt searches for, each once, in the order first wanted: a query names
/// the number only, so the same number in two seasons shares one search (and its strict
/// filter, which is scoped by number too).
pub fn hunt_numbers(wanted: &[(u32, u32)]) -> (r: Vec<u32>)
    ensures
        r@ == first_seen(numbers_wanted(wanted@)),
{
    let mut out: Vec<u32> = Vec::new();
    let mut i: usize = 0;
    while i < wanted.len()
        invariant
            i <= wanted@.len(),
            out@ == first_seen(numbers_wanted(wanted@.take(i as int))),
        decreases wanted@.len() - i,
    {
        let n = wanted[i].1;
        let ghost nw = numbers_wanted(wanted@.take(i + 1));
        assert(nw.drop_last() =~= numbers_wanted(wanted@.take(i as int)));
        assert(nw.last() == n);
        if !contains_u32(out.as_slice(), n) {
            out.push(n);
        }
        i = i + 1;
    }
    assert(wanted@.take(wanted@.len() as int) =~= wanted@);
    out
}

/// Every number is searched exactly once: the hunt's numbers are distinct and are exactly
/// the wanted numbers.
pub proof fn lemma_hunt_numbers_once(s: Seq<u32>)
    ensures
        first_seen(s).no_duplicates(),
        forall|x: u32| first_seen(s).contains(x) <==> s.contains(x),
    decreases s.len(),
{
    if s.len() > 0 {
        let p = s.drop_last();
        lemma_hunt_numbers_once(p);
        let d = first_seen(p);
        assert forall|x: u32| first_seen(s).contains(x) <==> s.contains(x) by {
            let l = s.len() - 1;
            assert(s[l] == s.last());
            if s.contains(x) {
                let k = choose|k: int| 0 <= k < s.len() && s[k] == x;
                if k < l {
                    assert(p[k] == x);
                    assert(p.contains(x));
                    assert(d.contains(x));
                    if !d.contains(s.last()) {
                        let j = choose|j: int| 0 <= j < d.len() && d[j] == x;
                        assert(d.push(s.last())[j] == x);
                    }
                } else {
                    assert(x == s.last());
                    if !d.contains(s.last()) {
                        assert(d.push(s.last())[d.len() as int] == x);
                    }
                }
            }
            if first_seen(s).contains(x) {
                if d.contains(x) {
                    assert(p.contains(x));
                    let k = choose|k: int| 0 <= k < p.len() && p[k] == x;
                    assert(s[k] == x);
                } else {
                    let e = first_seen(s);
                    let j = choose|j: int| 0 <= j < e.len() && e[j] == x;
                    if j < d.len() {
                        assert(e[j] == d[j]);
                    }
                    assert(x == s.last());
                }
            }
        }
        if !d.contains(s.last()) {
            let e = d.push(s.last());
            assert forall|a: int, b: int| 0 <= a < e.len() && 0 <= b < e.len() && a != b implies e[a] != e[b] by {
                if a < d.len() && b < d.len() {
                    assert(e[a] == d[a] && e[b] == d[b]);
                } else if a < d.len() {
                    assert(e[a] == d[a]);
                } else if b < d.len() {
                    assert(e[b] == d[b]);
                }
            }
        }
    }
}

/// The season total that ceilings the continuation: a positive known total, as `u32`.
pub fn hunt_total(total_episodes: Option<i64>) -> (r: Option<u32>)
    ensures
        r == (match total_episodes { Some(t) => if t > 0 { Some(t as u32) } else { None }, None => None }),
{
    match total_episodes {
        Some(t) => if t > 0 { Some(t as u32) } else { None },
        None => None,
    }
}

/// The search for one wanted number: the show's title and the number. Queries name the
/// number only, so equal numbers of different seasons share one search.
pub fn hunt_query(display_title: &str, number: u32) -> (r: String)
    ensures
        r@ == display_title@ + " "@ + crate::text::decimal(number as nat),
{
    let mut v = crate::text::chars_of(display_title);
    crate::text::push_str(&mut v, " ");
    crate::text::push_u64(&mut v, number as u64);
    crate::text::string_of(v.as_slice())
}

pub open spec fn as_wanted(h: NyaaHit) -> WantedHit {
    WantedHit {
        title: h.title,
        page_url: h.page_url,
        torrent_url: h.torrent_url,
        info_hash: h.info_hash,
        size_bytes: h.size_bytes,
        seeders: h.seeders,
    }
}

/// The hits whose titles pass the strict filter, in search order.
pub open spec fn strict_of(hits: Seq<NyaaHit>, number: u32, group: Option<Seq<char>>, res: Option<Seq<char>>) -> Seq<WantedHit>
    decreases hits.len(),
{
    if hits.len() == 0 {
        Seq::<WantedHit>::empty()
    } else {
        let r = strict_of(hits.drop_last(), number, group, res);
        if strict_pass(classify_spec(hits.last().title@), number, group, res) {
            r.push(as_wanted(hits.last()))
        } else {
            r
        }
    }
}

/// The strict matches among one search's hits for episode `number`, best seeded first
/// (equal seeders keep search order).
pub fn strict_hits(hits: Vec<NyaaHit>, number: u32, group: &Option<String>, res: &Option<String>) -> (r: Vec<WantedHit>)
    ensures
        by_seeders_desc(strict_of(hits@, number, crate::parser::opt_str(*group), crate::parser::opt_str(*res)), r@),
{
    let ghost g = crate::parser::opt_str(*group);
    let ghost rs = crate::parser::opt_str(*res);
    let mut kept: Vec<WantedHit> = Vec::new();
    let mut rest = hits;
    let ghost input = rest@;
    let mut i: usize = 0;
    let n = rest.len();
    assert(input.skip(0) =~= input);
    assert(input.take(0) =~= Seq::<NyaaHit>::empty());
    while i < n
        invariant
            n == input.len(),
            i <= n,
            rest@ == input.skip(i as int),
            g == crate::parser::opt_str(*group),
            rs == crate::parser::opt_str(*res),
            kept@ == strict_of(input.take(i as int), number, g, rs),
        decreases n - i,
    {
        let h = rest.remove(0);
        assert(h == input[i as int]);
        assert(rest@ =~= input.skip(i + 1));
        assert(input.take(i + 1).drop_last() =~= input.take(i as int));
        assert(input.take(i + 1).last() == h);
        let single = classify_title(h.title.as_str());
        let keep = strict_keep(&single, number, group, res);
        proof {
            match single {
                Some(s) => assert(classify_spec(h.title@) == Some(s.model())),
                None => {},
            }
        }
        if keep {
            kept.push(WantedHit {
                title: h.title,
                page_url: h.page_url,
                torrent_url: h.torrent_url,
                info_hash: h.info_hash,
                size_bytes: h.size_bytes,
                seeders: h.seeders,
            });
        }
        i = i + 1;
    }
    assert(input.take(n as int) =~= input);
    order_by_seeders(kept)
}

// ---------------------------------------------------------------------------
// The feed address
// ---------------------------------------------------------------------------

pub const NYAA_BASE: &'static str = "https://nyaa.si";

pub open spec fn hex_upper(d: nat) -> char {
    if d < 10 { ((0x30 + d) as u8) as char } else { ((0x41 + d - 10) as u8) as char }
}

/// One byte as `application/x-www-form-urlencoded` writes it: a space as `+`, ASCII letters,
/// digits and `*-._` as themselves, every other byte as `%XX` in upper-case hex.
pub open spec fn form_byte(b: u8) -> Seq<char> {
    if b == 0x20 {
        seq!['+']
    } else if (0x30 <= b <= 0x39) || (0x41 <= b <= 0x5A) || (0x61 <= b <= 0x7A) || b == 0x2A || b == 0x2D
        || b == 0x2E || b == 0x5F {
        seq![b as char]
    } else {
        seq!['%', hex_upper((b / 16) as nat), hex_upper((b % 16) as nat)]
    }
}

/// A string form-urlencoded: its UTF-8 bytes encoded in turn.
pub open spec fn form_encoded(s: Seq<char>) -> Seq<char> {
    form_bytes(vstd::utf8::encode_utf8(s))
}

pub open spec fn form_bytes(bs: Seq<u8>) -> Seq<char>
    decreases bs.len(),
{
    if bs.len() == 0 {
        Seq::<char>::empty()
    } else {
        form_bytes(bs.drop_last()) + form_byte(bs.last())
    }
}

fn hex_digit(d: u8) -> (r: char)
    requires
        d < 16,
    ensures
        r == hex_upper(d as nat),
{
    if d < 10 { (0x30u8 + d) as char } else { (0x41u8 + d - 10) as char }
}

fn push_form_byte(out: &mut Vec<char>, b: u8)
    ensures
        final(out)@ == old(out)@ + form_byte(b),
{
    if b == 0x20 {
        out.push('+');
    } else if (0x30 <= b && b <= 0x39) || (0x41 <= b && b <= 0x5A) || (0x61 <= b && b <= 0x7A) || b == 0x2A
        || b == 0x2D || b == 0x2E || b == 0x5F {
        out.push(b as char);
    } else {
        out.push('%');
        out.push(hex_digit(b / 16));
        out.push(hex_digit(b % 16));
    }
    assert(out@ =~= old(out)@ + form_byte(b));
}

/// `s` form-urlencoded, as the `url` crate's query serializer writes a value.
pub fn form_encode(s: &str) -> (r: Vec<char>)
    ensures
        r@ == form_encoded(s@),
{
    let bs = crate::dlna::http::str_bytes(s);
    let mut out: Vec<char> = Vec::new();
    let mut k: usize = 0;
    while k < bs.len()
        invariant
            k <= bs@.len(),
            out@ == form_bytes(bs@.take(k as int)),
        decreases bs@.len() - k,
    {
        assert(bs@.take(k + 1).drop_last() =~= bs@.take(k as int));
        assert(bs@.take(k + 1).last() == bs@[k as int]);
        push_form_byte(&mut out, bs[k]);
        k = k + 1;
    }
    assert(bs@.take(bs@.len() as int) =~= bs@);
    out
}

/// Title-only Nyaa RSS feed URL for a show (no episode number, so future episodes match),
/// with the title form-urlencoded into the query.
pub fn feed_url(title: &str) -> (r: String)
    ensures
        r@ == "https://nyaa.si/?page=rss&q="@ + form_encoded(title@) + "&c=1_2&f=0"@,
{
    let mut v = crate::text::chars_of("https://nyaa.si/?page=rss&q=");
    let enc = form_encode(title);
    crate::text::push_all(&mut v, enc.as_slice());
    crate::text::push_str(&mut v, "&c=1_2&f=0");
    crate::text::string_of(v.as_slice())
}

/// Everything a feed subscription needs: the feed for the show's title and the preferred
/// group and resolution of its owned files (absent when nothing votes; never a failure).
pub fn subscribe_derivation(display_title: &str, owned: &[Owned]) -> (r: FeedDerivation)
    ensures
        r.feed_url@ == "https://nyaa.si/?page=rss&q="@ + form_encoded(display_title@) + "&c=1_2&f=0"@,
        is_modal(owned@, true, crate::parser::opt_str(r.group)),
        is_modal(owned@, false, crate::parser::opt_str(r.resolution)),
{
    FeedDerivation {
        feed_url: feed_url(display_title),
        group: modal_group(owned),
        resolution: modal_resolution(owned),
    }
}

} // verus!
