//! Anime file-name parser: title, season, episode, release group, resolution and CRC
//! from a video file stem and the names of the folders above it.
use vstd::prelude::*;
use crate::pattern::{Span, leftmost_match, leftmost_captures, all_captures, group, text_of,
    replace_all_matches, replace_first_match, groups_in};
use crate::text::{trim, trim_by, dash_or_space, map_chars, underscore_or_dot, underscore,
    parse_unsigned, find_from};

verus! {

// ---------------------------------------------------------------------------
// The grammar
// ---------------------------------------------------------------------------

pub const BRACKET: &'static str = r"\[([^\]]*)\]|\(([^)]*)\)";
pub const CRC: &'static str = r"^[0-9A-Fa-f]{8}$";
pub const RES: &'static str = r"(?i)\b(\d{3,4}p|\d{3,4}x\d{3,4})\b";
pub const SPECIAL: &'static str = r"(?i)(?:\b|\d)(NCOP|NCED|NCI|Creditless\s?(?:Opening|Ending)|Clean\s?(?:Opening|Ending)|OVA|OAD|OP|ED|SP|Special|Extra|Preview|Recap|Menu|CM|PV|Teaser|Trailer|CharSong|Eyecatch(?:es)?)(?:\s|\d|v\d|$)";
pub const SPECIAL_NUM: &'static str = r"(?i)(?:\b|\d)(?:NCOP|NCED|NCI|Creditless\s?(?:Opening|Ending)|Clean\s?(?:Opening|Ending)|OVA|OAD|OP|ED|SP|Special|Extra|Preview|Recap|Menu|CM|PV|Teaser|Trailer|CharSong|Eyecatch(?:es)?)\s?(\d{1,3})(?:v\d)?\b";
pub const SXXEXX: &'static str = r"(?i)\bS(\d{1,2})[ ._]?E(\d{1,4})(?:v\d)?\b";
pub const NXNN: &'static str = r"(?i)\b(\d{1,2})x(\d{1,4})(?:v\d)?\b";
pub const DASH_EP: &'static str = r"(?i)\s-\s(\d{1,4})(?:v\d)?\b";
pub const EP_PREFIX: &'static str = r"(?i)\b(?:Episode|Ep?)\.?\s?(\d{1,4})(?:v\d)?\b";
pub const JP_EP: &'static str = r"第(\d{1,4})[話话]";
pub const TRAILING_NUM: &'static str = r"(?i)[\s_.-](\d{1,4})(?:v\d)?\s*$";
pub const LEADING_NUM: &'static str = r"(?i)^\s*(\d{1,4})(?:v\d)?\s*(?:[-_.]|\s|$)";
pub const MID_NUM: &'static str = r"(?i)\s(\d{2,3})(?:v\d)?\s";
pub const SEASON_SUFFIX: &'static str = r"(?i)\s+(?:(\d{1,2})(?:st|nd|rd|th)\s+Season|Season\s+(\d{1,2})|Part\s+(\d{1,2})|S(\d{1,2}))\s*$";
pub const ROMAN_SUFFIX: &'static str = r"\s+(II|III|IV|V|VI|VII|VIII|IX)\s*$";
pub const DIR_SEASON: &'static str = r"(?i)^(?:Season\s*|S)(\d{1,2})(?:[^0-9]|$)";
pub const GENERIC_DIR: &'static str = r"(?i)^(?:Extras?|SPs?|Specials?|NCs?|Bonus|OVAs?|OADs?|Movies?|The Movie|\..*)$|^(?:Season\s*\d+|S\d+)(?:[^0-9]|$)";
/// Release-metadata words that commonly trail a title in folder or file names.
pub const NOISE_TAIL: &'static str = r"(?i)(?:[\s\-]+(?:Complete|Batch|BD-?Rip|BD|Blu-?ray|WEB-?DL|WEB-?Rip|WEB|Dual[\s-]?Audio|x264|x265|HEVC|AVC|H\.?26[45]|AAC|FLAC|OPUS|AC3|10-?bits?|Hi10P?|DVD-?Rip|DVD|Uncensored|Subbed|Dubbed|Eng(?:lish)?\s*Subs?|Multi-?Subs?|Remux|\d{3,4}p|\(?(?:19|20)\d\d\)?))+\s*$";
pub const JUNK_STEM: &'static str = r"(?i)^\s*(?:sample|test)\s*$";
pub const WS: &'static str = r"\s+";

// ---------------------------------------------------------------------------
// Results
// ---------------------------------------------------------------------------

#[derive(Debug, Clone, PartialEq, Eq)]
pub struct ParsedName {
    pub title: String,
    pub season: u32,
    pub episode: u32,
    pub release_group: Option<String>,
    pub resolution: Option<String>,
    pub crc: Option<String>,
}

/// A parse result plus whether it came from a weak heuristic worth a second opinion.
#[derive(Debug, Clone, PartialEq, Eq)]
pub struct Parsed {
    pub name: ParsedName,
    /// True when the title came from an ancestor directory, the stem had no episode marker
    /// (movie / one-shot), or the episode came from the leading- or mid-number fallback.
    pub low_confidence: bool,
}

/// What a parse states, as plain text and numbers.
pub struct NameModel {
    pub title: Seq<char>,
    pub season: u32,
    pub episode: u32,
    pub release_group: Option<Seq<char>>,
    pub resolution: Option<Seq<char>>,
    pub crc: Option<Seq<char>>,
    pub low_confidence: bool,
}

pub open spec fn opt_str(o: Option<String>) -> Option<Seq<char>> {
    match o {
        Some(s) => Some(s@),
        None => None,
    }
}

pub open spec fn opt_chars(o: Option<Vec<char>>) -> Option<Seq<char>> {
    match o {
        Some(s) => Some(s@),
        None => None,
    }
}

impl Parsed {
    pub open spec fn model(&self) -> NameModel {
        NameModel {
            title: self.name.title@,
            season: self.name.season,
            episode: self.name.episode,
            release_group: opt_str(self.name.release_group),
            resolution: opt_str(self.name.resolution),
            crc: opt_str(self.name.crc),
            low_confidence: self.low_confidence,
        }
    }
}

pub open spec fn dir_texts(dirs: Seq<String>) -> Seq<Seq<char>> {
    dirs.map_values(|d: String| d@)
}

// ---------------------------------------------------------------------------
// Title clean-up and suffixes
// ---------------------------------------------------------------------------

/// Separators become spaces, whitespace runs collapse, `-` and spaces are trimmed from the
/// ends, then a trailing run of release-metadata words is dropped and the ends trimmed again.
pub open spec fn clean_title_spec(s: Seq<char>) -> Seq<char> {
    let s1 = map_chars(s, underscore_or_dot(), ' ');
    let s2 = replace_all_matches(WS@, s1, " "@);
    let s3 = trim(trim_by(trim(s2), dash_or_space()));
    let s4 = replace_first_match(NOISE_TAIL@, s3, ""@);
    trim(trim_by(trim(s4), dash_or_space()))
}

pub fn clean_title(s: &[char]) -> (r: Vec<char>)
    ensures
        r@ == clean_title_spec(s@),
        crate::text::no_separator(r@),
{
    let s1 = crate::text::spaces_for_separators(s);
    proof { reveal_strlit(" "); reveal_strlit(""); }
    let s2 = crate::pattern::replace_all(WS, s1.as_slice(), " ");
    let t1 = crate::text::trim_chars(s2.as_slice());
    proof { crate::text::lemma_trim_by_no_separator(s2@, crate::text::ws()); }
    let t2 = crate::text::trim_dash_space(t1.as_slice());
    proof { crate::text::lemma_trim_by_no_separator(t1@, dash_or_space()); }
    let s3 = crate::text::trim_chars(t2.as_slice());
    proof { crate::text::lemma_trim_by_no_separator(t2@, crate::text::ws()); }
    let s4 = crate::pattern::replace_first(NOISE_TAIL, s3.as_slice(), "");
    let t3 = crate::text::trim_chars(s4.as_slice());
    proof { crate::text::lemma_trim_by_no_separator(s4@, crate::text::ws()); }
    let t4 = crate::text::trim_dash_space(t3.as_slice());
    proof { crate::text::lemma_trim_by_no_separator(t3@, dash_or_space()); }
    proof { crate::text::lemma_trim_by_no_separator(t4@, crate::text::ws()); }
    crate::text::trim_chars(t4.as_slice())
}

/// Value of a roman-numeral season suffix; anything unrecognised counts as 1.
pub open spec fn roman_spec(s: Seq<char>) -> u32 {
    if s == "II"@ { 2 }
    else if s == "III"@ { 3 }
    else if s == "IV"@ { 4 }
    else if s == "V"@ { 5 }
    else if s == "VI"@ { 6 }
    else if s == "VII"@ { 7 }
    else if s == "VIII"@ { 8 }
    else if s == "IX"@ { 9 }
    else { 1 }
}

/// Value of one roman digit (`I`, `V`, `X`); 0 for anything else.
pub open spec fn roman_digit(c: char) -> int {
    if c == 'I' { 1 } else if c == 'V' { 5 } else if c == 'X' { 10 } else { 0 }
}

/// The value a roman numeral denotes: its digits summed, a digit written before a larger
/// one counting negatively.
pub open spec fn roman_value(s: Seq<char>) -> int
    decreases s.len(),
{
    if s.len() == 0 {
        0
    } else if s.len() >= 2 && roman_digit(s[0]) < roman_digit(s[1]) {
        roman_value(s.drop_first()) - roman_digit(s[0])
    } else {
        roman_value(s.drop_first()) + roman_digit(s[0])
    }
}

/// The usual way of writing `n` (1 to 9) in roman digits.
pub open spec fn roman_numeral(n: int) -> Seq<char> {
    if n == 4 {
        seq!['I', 'V']
    } else if n == 9 {
        seq!['I', 'X']
    } else if n >= 5 {
        seq!['V'] + Seq::new((n - 5) as nat, |i: int| 'I')
    } else {
        Seq::new(n as nat, |i: int| 'I')
    }
}

/// A roman-numeral season suffix reads as the number it denotes: every numeral from II to
/// IX gives its own value, and whatever reads as something other than 1 is a numeral whose
/// value that is.
pub proof fn lemma_roman_reads_value(n: int, s: Seq<char>)
    ensures
        2 <= n <= 9 ==> roman_spec(roman_numeral(n)) == n,
        2 <= n <= 9 ==> roman_value(roman_numeral(n)) == n,
        roman_spec(s) != 1 ==> roman_spec(s) == roman_value(s),
{
    reveal_strlit("II");
    reveal_strlit("III");
    reveal_strlit("IV");
    reveal_strlit("V");
    reveal_strlit("VI");
    reveal_strlit("VII");
    reveal_strlit("VIII");
    reveal_strlit("IX");
    reveal_with_fuel(roman_value, 5);
    if 2 <= n <= 9 {
        let r = roman_numeral(n);
        if n == 2 { assert(r =~= "II"@); }
        else if n == 3 { assert(r =~= "III"@); }
        else if n == 4 { assert(r =~= "IV"@); }
        else if n == 5 { assert(r =~= "V"@); }
        else if n == 6 { assert(r =~= "VI"@); }
        else if n == 7 { assert(r =~= "VII"@); }
        else if n == 8 { assert(r =~= "VIII"@); }
        else { assert(r =~= "IX"@); }
        assert(roman_value(r) == n);
    }
    if roman_spec(s) != 1 {
        assert(roman_value(s) == roman_spec(s));
    }
}

pub fn roman(s: &[char]) -> (r: u32)
    ensures
        r == roman_spec(s@),
{
    if crate::text::eq_str(s, "II") { 2 }
    else if crate::text::eq_str(s, "III") { 3 }
    else if crate::text::eq_str(s, "IV") { 4 }
    else if crate::text::eq_str(s, "V") { 5 }
    else if crate::text::eq_str(s, "VI") { 6 }
    else if crate::text::eq_str(s, "VII") { 7 }
    else if crate::text::eq_str(s, "VIII") { 8 }
    else if crate::text::eq_str(s, "IX") { 9 }
    else { 1 }
}

/// A 4-digit number in 1900..=2099 is a release year, not an episode number.
pub open spec fn not_year_spec(n: u32) -> Option<u32> {
    if 1900 <= n && n <= 2099 { None } else { Some(n) }
}

pub fn not_year(n: u32) -> (r: Option<u32>)
    ensures
        r == not_year_spec(n),
{
    if 1900 <= n && n <= 2099 { None } else { Some(n) }
}

pub open spec fn parse_u32_spec(s: Seq<char>) -> Option<u32> {
    match parse_unsigned(s, u32::MAX as nat) {
        Some(v) => Some(v as u32),
        None => None,
    }
}

/// The first of capture groups 1..=4 that took part.
pub open spec fn first_of_four(g: Seq<Option<Span>>) -> Option<Span> {
    if group(g, 1) is Some { group(g, 1) }
    else if group(g, 2) is Some { group(g, 2) }
    else if group(g, 3) is Some { group(g, 3) }
    else { group(g, 4) }
}

/// Strip a trailing season suffix ("2nd Season", "Season 2", "Part 2", "S2", roman numeral)
/// from a cleaned title: the shortened title and the season number when one was removed.
pub open spec fn strip_season_suffix_spec(title: Seq<char>) -> (Seq<char>, Option<u32>) {
    match leftmost_captures(SEASON_SUFFIX@, title) {
        Some(g) => {
            let n = match first_of_four(g) {
                Some(sp) => parse_u32_spec(text_of(title, sp)),
                None => None,
            };
            let start = match g[0] { Some(sp) => sp.0, None => 0 };
            (clean_title_spec(title.subrange(0, start as int)), n)
        },
        None => match leftmost_captures(ROMAN_SUFFIX@, title) {
            Some(g) => {
                let n = match group(g, 1) {
                    Some(sp) => roman_spec(text_of(title, sp)),
                    None => roman_spec(Seq::empty()),
                };
                let start = match g[0] { Some(sp) => sp.0, None => 0 };
                (clean_title_spec(title.subrange(0, start as int)), Some(n))
            },
            None => (title, None),
        },
    }
}

pub fn parse_u32_at(s: &[char], sp: Span) -> (r: Option<u32>)
    requires
        sp.0 <= sp.1 <= s@.len(),
    ensures
        r == parse_u32_spec(text_of(s@, sp)),
{
    let t = crate::text::slice_chars(s, sp.0, sp.1);
    crate::text::parse_u32(t.as_slice())
}

pub fn strip_season_suffix(title: &[char]) -> (r: (Vec<char>, Option<u32>))
    ensures
        (r.0@, r.1) == strip_season_suffix_spec(title@),
        crate::text::no_separator(title@) ==> crate::text::no_separator(r.0@),
{
    match crate::pattern::captures(SEASON_SUFFIX, title) {
        Some(g) => {
            let first = if crate::pattern::get_group(&g, 1).is_some() {
                crate::pattern::get_group(&g, 1)
            } else if crate::pattern::get_group(&g, 2).is_some() {
                crate::pattern::get_group(&g, 2)
            } else if crate::pattern::get_group(&g, 3).is_some() {
                crate::pattern::get_group(&g, 3)
            } else {
                crate::pattern::get_group(&g, 4)
            };
            proof {
                assert(groups_in(g@, title@.len()));
                if let Some(sp) = first {
                    assert(crate::pattern::span_in(sp, title@.len()));
                }
            }
            let n = match first {
                Some(sp) => parse_u32_at(title, sp),
                None => None,
            };
            let (start, _) = g[0].unwrap();
            let head = crate::text::slice_chars(title, 0, start);
            (clean_title(head.as_slice()), n)
        },
        None => match crate::pattern::captures(ROMAN_SUFFIX, title) {
            Some(g) => {
                let n = match crate::pattern::get_group(&g, 1) {
                    Some(sp) => {
                        assert(crate::pattern::span_in(sp, title@.len()));
                        let t = crate::text::slice_chars(title, sp.0, sp.1);
                        roman(t.as_slice())
                    },
                    None => {
                        let e: Vec<char> = Vec::new();
                        assert(e@ =~= Seq::<char>::empty());
                        roman(e.as_slice())
                    },
                };
                let (start, _) = g[0].unwrap();
                let head = crate::text::slice_chars(title, 0, start);
                (clean_title(head.as_slice()), Some(n))
            },
            None => (crate::text::slice_chars(title, 0, title.len()), None),
        },
    }
}

// ---------------------------------------------------------------------------
// Folder names
// ---------------------------------------------------------------------------

/// A folder name with bracket tokens blanked and everything from a resolution token on cut.
pub open spec fn dir_work_spec(d: Seq<char>) -> Seq<char> {
    let w = replace_all_matches(BRACKET@, d, " "@);
    match leftmost_match(RES@, w) {
        Some(sp) => w.subrange(0, sp.0 as int),
        None => w,
    }
}

/// The show title a folder name supplies, if it is not a generic folder.
pub open spec fn dir_title_spec(d: Seq<char>) -> Option<(Seq<char>, Option<u32>)> {
    let t = trim(d);
    if t.len() == 0 || leftmost_match(GENERIC_DIR@, t) is Some {
        None
    } else {
        let (title, season) = strip_season_suffix_spec(clean_title_spec(dir_work_spec(t)));
        if title.len() == 0 || leftmost_match(GENERIC_DIR@, title) is Some {
            None
        } else {
            Some((title, season))
        }
    }
}

/// Show title from the nearest ancestor folder that is not generic ("Extras", "Season 1",
/// ".unwanted", ...), searching from index `i` on.
pub open spec fn title_from_dirs_spec(dirs: Seq<Seq<char>>, i: int) -> Option<(Seq<char>, Option<u32>)>
    decreases dirs.len() - i,
{
    if i < 0 || i >= dirs.len() {
        None
    } else {
        match dir_title_spec(dirs[i]) {
            Some(r) => Some(r),
            None => title_from_dirs_spec(dirs, i + 1),
        }
    }
}

/// Season number from the nearest ancestor folder named like "Season 2" or "S2".
pub open spec fn season_from_dirs_spec(dirs: Seq<Seq<char>>, i: int) -> Option<u32>
    decreases dirs.len() - i,
{
    if i < 0 || i >= dirs.len() {
        None
    } else {
        let t = trim(dirs[i]);
        let here = match leftmost_captures(DIR_SEASON@, t) {
            Some(g) => match group(g, 1) {
                Some(sp) => parse_u32_spec(text_of(t, sp)),
                None => None,
            },
            None => None,
        };
        match here {
            Some(n) => Some(n),
            None => season_from_dirs_spec(dirs, i + 1),
        }
    }
}

fn dir_title(d: &String) -> (r: Option<(Vec<char>, Option<u32>)>)
    ensures
        r matches Some(x) ==> dir_title_spec(d@) == Some((x.0@, x.1)) && crate::text::no_separator(x.0@),
        r is None ==> dir_title_spec(d@) is None,
{
    let dc = crate::text::chars_of(d.as_str());
    let t = crate::text::trim_chars(dc.as_slice());
    if t.len() == 0 || crate::pattern::is_match(GENERIC_DIR, t.as_slice()) {
        return None;
    }
    let w = crate::pattern::replace_all(BRACKET, t.as_slice(), " ");
    let w = match crate::pattern::find(RES, w.as_slice()) {
        Some((s, _)) => crate::text::slice_chars(w.as_slice(), 0, s),
        None => w,
    };
    let c = clean_title(w.as_slice());
    let (title, season) = strip_season_suffix(c.as_slice());
    if title.len() == 0 || crate::pattern::is_match(GENERIC_DIR, title.as_slice()) {
        return None;
    }
    Some((title, season))
}

pub fn title_from_dirs(dirs: &[String]) -> (r: Option<(Vec<char>, Option<u32>)>)
    ensures
        r matches Some(x) ==> title_from_dirs_spec(dir_texts(dirs@), 0) == Some((x.0@, x.1))
            && crate::text::no_separator(x.0@),
        r is None ==> title_from_dirs_spec(dir_texts(dirs@), 0) is None,
{
    let ghost ds = dir_texts(dirs@);
    let mut i: usize = 0;
    while i < dirs.len()
        invariant
            i <= dirs@.len(),
            ds == dir_texts(dirs@),
            title_from_dirs_spec(ds, 0) == title_from_dirs_spec(ds, i as int),
        decreases dirs@.len() - i,
    {
        assert(ds[i as int] == dirs@[i as int]@);
        match dir_title(&dirs[i]) {
            Some(r) => return Some(r),
            None => {},
        }
        i = i + 1;
    }
    None
}

pub fn season_from_dirs(dirs: &[String]) -> (r: Option<u32>)
    ensures
        r == season_from_dirs_spec(dir_texts(dirs@), 0),
{
    let ghost ds = dir_texts(dirs@);
    let mut i: usize = 0;
    while i < dirs.len()
        invariant
            i <= dirs@.len(),
            ds == dir_texts(dirs@),
            season_from_dirs_spec(ds, 0) == season_from_dirs_spec(ds, i as int),
        decreases dirs@.len() - i,
    {
        assert(ds[i as int] == dirs@[i as int]@);
        let dc = crate::text::chars_of(dirs[i].as_str());
        let t = crate::text::trim_chars(dc.as_slice());
        let here = match crate::pattern::captures(DIR_SEASON, t.as_slice()) {
            Some(g) => match crate::pattern::get_group(&g, 1) {
                Some(sp) => {
                    assert(crate::pattern::span_in(sp, t@.len()));
                    parse_u32_at(t.as_slice(), sp)
                },
                None => None,
            },
            None => None,
        };
        if let Some(n) = here {
            return Some(n);
        }
        i = i + 1;
    }
    None
}

// ---------------------------------------------------------------------------
// Pass 1: bracket tokens
// ---------------------------------------------------------------------------

/// What the bracketed tokens of a stem supply.
pub struct BracketFacts {
    pub group: Option<Seq<char>>,
    pub crc: Option<Seq<char>>,
    pub resolution: Option<Seq<char>>,
    /// `Some(n)` once a token starts with a special keyword; `n` is its number if any.
    pub special: Option<Option<u32>>,
}

pub struct BracketScan {
    pub group: Option<Vec<char>>,
    pub crc: Option<Vec<char>>,
    pub resolution: Option<Vec<char>>,
    pub special: Option<Option<u32>>,
}

impl BracketScan {
    pub open spec fn facts(&self) -> BracketFacts {
        BracketFacts {
            group: opt_chars(self.group),
            crc: opt_chars(self.crc),
            resolution: opt_chars(self.resolution),
            special: self.special,
        }
    }
}

/// The trimmed inside of a bracket token (group 1 for `[...]`, group 2 for `(...)`).
pub open spec fn token_inner(stem: Seq<char>, g: Seq<Option<Span>>) -> Seq<char> {
    match group(g, 1) {
        Some(sp) => trim(text_of(stem, sp)),
        None => match group(g, 2) {
            Some(sp) => trim(text_of(stem, sp)),
            None => Seq::empty(),
        },
    }
}

/// The number after a special keyword in a token, if the token has one.
pub open spec fn special_number(spaced: Seq<char>) -> Option<u32> {
    match leftmost_captures(SPECIAL_NUM@, spaced) {
        Some(g) => match group(g, 1) {
            Some(sp) => parse_u32_spec(text_of(spaced, sp)),
            None => None,
        },
        None => None,
    }
}

/// One bracket token folded into what is known so far. The first CRC, resolution and
/// special token win; the first other `[...]` token is the release group.
pub open spec fn bracket_step(stem: Seq<char>, f: BracketFacts, g: Seq<Option<Span>>) -> BracketFacts {
    let inner = token_inner(stem, g);
    if inner.len() == 0 {
        f
    } else if leftmost_match(CRC@, inner) is Some {
        BracketFacts { crc: if f.crc is Some { f.crc } else { Some(inner) }, ..f }
    } else {
        let spaced = map_chars(inner, underscore(), ' ');
        match leftmost_match(RES@, spaced) {
            Some(m) => BracketFacts {
                resolution: if f.resolution is Some { f.resolution } else { Some(text_of(spaced, m)) },
                ..f
            },
            None => match leftmost_match(SPECIAL@, spaced) {
                Some(m) if m.0 == 0 => BracketFacts {
                    special: if f.special is Some { f.special } else { Some(special_number(spaced)) },
                    ..f
                },
                _ => if f.group is None && group(g, 1) is Some {
                    BracketFacts { group: Some(inner), ..f }
                } else {
                    f
                },
            },
        }
    }
}

pub open spec fn bracket_fold(stem: Seq<char>, caps: Seq<Seq<Option<Span>>>) -> BracketFacts
    decreases caps.len(),
{
    if caps.len() == 0 {
        BracketFacts { group: None, crc: None, resolution: None, special: None }
    } else {
        bracket_step(stem, bracket_fold(stem, caps.drop_last()), caps.last())
    }
}

pub open spec fn bracket_facts(stem: Seq<char>) -> BracketFacts {
    bracket_fold(stem, all_captures(BRACKET@, stem))
}

fn token_inner_exec(stem: &[char], g: &Vec<Option<Span>>) -> (r: Vec<char>)
    requires
        groups_in(g@, stem@.len()),
    ensures
        r@ == token_inner(stem@, g@),
{
    match crate::pattern::get_group(g, 1) {
        Some(sp) => {
            assert(crate::pattern::span_in(sp, stem@.len()));
            let t = crate::text::slice_chars(stem, sp.0, sp.1);
            crate::text::trim_chars(t.as_slice())
        },
        None => match crate::pattern::get_group(g, 2) {
            Some(sp) => {
                assert(crate::pattern::span_in(sp, stem@.len()));
                let t = crate::text::slice_chars(stem, sp.0, sp.1);
                crate::text::trim_chars(t.as_slice())
            },
            None => {
                let e: Vec<char> = Vec::new();
                assert(e@ =~= Seq::<char>::empty());
                e
            },
        },
    }
}

fn special_number_exec(spaced: &[char]) -> (r: Option<u32>)
    ensures
        r == special_number(spaced@),
{
    match crate::pattern::captures(SPECIAL_NUM, spaced) {
        Some(g) => match crate::pattern::get_group(&g, 1) {
            Some(sp) => {
                assert(crate::pattern::span_in(sp, spaced@.len()));
                parse_u32_at(spaced, sp)
            },
            None => None,
        },
        None => None,
    }
}

fn bracket_step_exec(stem: &[char], f: BracketScan, g: &Vec<Option<Span>>) -> (r: BracketScan)
    requires
        groups_in(g@, stem@.len()),
    ensures
        r.facts() == bracket_step(stem@, f.facts(), g@),
{
    let inner = token_inner_exec(stem, g);
    if inner.len() == 0 {
        return f;
    }
    if crate::pattern::is_match(CRC, inner.as_slice()) {
        let crc = if f.crc.is_some() { f.crc } else { Some(inner) };
        return BracketScan { crc, ..f };
    }
    let spaced = crate::text::spaces_for_underscores(inner.as_slice());
    match crate::pattern::find(RES, spaced.as_slice()) {
        Some(m) => {
            let resolution = if f.resolution.is_some() {
                f.resolution
            } else {
                Some(crate::text::slice_chars(spaced.as_slice(), m.0, m.1))
            };
            BracketScan { resolution, ..f }
        },
        None => {
            let sp = crate::pattern::find(SPECIAL, spaced.as_slice());
            if sp.is_some() && sp.unwrap().0 == 0 {
                let special = if f.special.is_some() { f.special } else { Some(special_number_exec(spaced.as_slice())) };
                BracketScan { special, ..f }
            } else if f.group.is_none() && crate::pattern::get_group(g, 1).is_some() {
                BracketScan { group: Some(inner), ..f }
            } else {
                f
            }
        },
    }
}

pub fn scan_brackets(stem: &[char]) -> (r: BracketScan)
    ensures
        r.facts() == bracket_facts(stem@),
{
    let caps = crate::pattern::captures_iter(BRACKET, stem);
    let ghost all = all_captures(BRACKET@, stem@);
    let mut f = BracketScan { group: None, crc: None, resolution: None, special: None };
    let mut i: usize = 0;
    while i < caps.len()
        invariant
            i <= caps@.len(),
            caps@.len() == all.len(),
            all == all_captures(BRACKET@, stem@),
            forall|k: int| 0 <= k < caps@.len() ==> (#[trigger] caps@[k])@ == all[k],
            forall|k: int| 0 <= k < caps@.len() ==> groups_in((#[trigger] caps@[k])@, stem@.len()),
            f.facts() == bracket_fold(stem@, all.subrange(0, i as int)),
        decreases caps@.len() - i,
    {
        assert(all.subrange(0, i + 1).drop_last() =~= all.subrange(0, i as int));
        assert(all.subrange(0, i + 1).last() == caps@[i as int]@);
        assert(groups_in(caps@[i as int]@, stem@.len()));
        f = bracket_step_exec(stem, f, &caps[i]);
        i = i + 1;
    }
    assert(all.subrange(0, all.len() as int) =~= all);
    f
}

// ---------------------------------------------------------------------------
// Pass 2: season/episode markers
// ---------------------------------------------------------------------------

/// The marker patterns, tried in order; the first that matches wins.
pub open spec fn marker_pattern(k: int) -> Seq<char> {
    if k == 0 { SXXEXX@ }
    else if k == 1 { NXNN@ }
    else if k == 2 { JP_EP@ }
    else if k == 3 { DASH_EP@ }
    else if k == 4 { EP_PREFIX@ }
    else if k == 5 { SPECIAL_NUM@ }
    else if k == 6 { TRAILING_NUM@ }
    else if k == 7 { LEADING_NUM@ }
    else { MID_NUM@ }
}

/// Whether marker `k` carries the season in group 1 (and the episode in group 2).
pub open spec fn marker_has_season(k: int) -> bool {
    k == 0 || k == 1
}

/// Whether marker `k` refuses a year as its episode (a special's number is never a year).
pub open spec fn marker_year_filter(k: int) -> bool {
    k != 5
}

/// Whether marker `k` leads the name rather than ending the title.
pub open spec fn marker_leads(k: int) -> bool {
    k == 7
}

/// Whether marker `k` is a weak guess worth a second opinion.
pub open spec fn marker_weak(k: int) -> bool {
    k == 7 || k == 8
}

pub open spec fn marker_ep_group(k: int) -> int {
    if marker_has_season(k) { 2 } else { 1 }
}

/// The episode group of a marker match reads as a number that is not a year.
pub open spec fn ep_ok(work: Seq<char>, g: Seq<Option<Span>>, i: int) -> bool {
    match group(g, i) {
        Some(sp) => match parse_u32_spec(text_of(work, sp)) {
            Some(n) => not_year_spec(n) is Some,
            None => false,
        },
        None => false,
    }
}

/// Capture groups of marker `k` in `work`, when it matches and passes its year filter.
pub open spec fn marker_hit(work: Seq<char>, k: int) -> Option<Seq<Option<Span>>> {
    match leftmost_captures(marker_pattern(k), work) {
        Some(g) => if !marker_year_filter(k) || ep_ok(work, g, marker_ep_group(k)) { Some(g) } else { None },
        None => None,
    }
}

/// The first marker at index `k` or later that hits.
pub open spec fn first_marker(work: Seq<char>, k: int) -> Option<(int, Seq<Option<Span>>)>
    decreases 9 - k,
{
    if k < 0 || k >= 9 {
        None
    } else {
        match marker_hit(work, k) {
            Some(g) => Some((k, g)),
            None => first_marker(work, k + 1),
        }
    }
}

pub struct MarkerModel {
    pub season: Option<u32>,
    pub episode: u32,
    pub title_end: int,
    pub start: int,
    pub end: int,
    pub weak: bool,
}

/// The marker found in `work`: `Err` when its numbers do not read as `u32` (the whole
/// name is then unparseable), `Ok(None)` when no marker matches.
pub open spec fn marker_spec(work: Seq<char>) -> Result<Option<MarkerModel>, ()> {
    match first_marker(work, 0) {
        None => Ok(None),
        Some((k, g)) => {
            let season: Result<Option<u32>, ()> = if marker_has_season(k) {
                match group(g, 1) {
                    Some(sp) => match parse_u32_spec(text_of(work, sp)) {
                        Some(n) => Ok(Some(n)),
                        None => Err(()),
                    },
                    None => Err(()),
                }
            } else {
                Ok(None)
            };
            let episode: Option<u32> = match group(g, marker_ep_group(k)) {
                Some(sp) => parse_u32_spec(text_of(work, sp)),
                None => None,
            };
            match (season, episode) {
                (Ok(s), Some(e)) => {
                    let m = g[0]->0;
                    Ok(Some(MarkerModel {
                        season: s,
                        episode: e,
                        title_end: if marker_leads(k) { 0 } else { m.0 as int },
                        start: m.0 as int,
                        end: m.1 as int,
                        weak: marker_weak(k),
                    }))
                },
                _ => Err(()),
            }
        },
    }
}

#[derive(Clone, Copy)]
pub struct Marker {
    pub season: Option<u32>,
    pub episode: u32,
    pub title_end: usize,
    pub start: usize,
    pub end: usize,
    pub weak: bool,
}

impl Marker {
    pub open spec fn model(&self) -> MarkerModel {
        MarkerModel {
            season: self.season,
            episode: self.episode,
            title_end: self.title_end as int,
            start: self.start as int,
            end: self.end as int,
            weak: self.weak,
        }
    }
}

fn marker_pattern_str(k: usize) -> (r: &'static str)
    requires
        k < 9,
    ensures
        r@ == marker_pattern(k as int),
{
    if k == 0 { SXXEXX }
    else if k == 1 { NXNN }
    else if k == 2 { JP_EP }
    else if k == 3 { DASH_EP }
    else if k == 4 { EP_PREFIX }
    else if k == 5 { SPECIAL_NUM }
    else if k == 6 { TRAILING_NUM }
    else if k == 7 { LEADING_NUM }
    else { MID_NUM }
}

fn group_u32(work: &[char], g: &Vec<Option<Span>>, i: usize) -> (r: Option<u32>)
    requires
        groups_in(g@, work@.len()),
    ensures
        r == (match group(g@, i as int) { Some(sp) => parse_u32_spec(text_of(work@, sp)), None => None }),
{
    match crate::pattern::get_group(g, i) {
        Some(sp) => {
            assert(crate::pattern::span_in(sp, work@.len()));
            parse_u32_at(work, sp)
        },
        None => None,
    }
}

pub fn find_marker(work: &[char]) -> (r: Result<Option<Marker>, ()>)
    ensures
        match r {
            Ok(Some(m)) => marker_spec(work@) == Ok::<Option<MarkerModel>, ()>(Some(m.model())),
            Ok(None) => marker_spec(work@) == Ok::<Option<MarkerModel>, ()>(None),
            Err(()) => marker_spec(work@) == Err::<Option<MarkerModel>, ()>(()),
        },
        r matches Ok(Some(m)) ==> m.title_end <= m.start <= m.end <= work@.len(),
{
    let mut k: usize = 0;
    while k < 9
        invariant
            k <= 9,
            first_marker(work@, 0) == first_marker(work@, k as int),
        decreases 9 - k,
    {
        let pat = marker_pattern_str(k);
        let hit = match crate::pattern::captures(pat, work) {
            Some(g) => {
                let yf = k != 5;
                let eg: usize = if k == 0 || k == 1 { 2 } else { 1 };
                let ok = if !yf {
                    true
                } else {
                    match group_u32(work, &g, eg) {
                        Some(n) => not_year(n).is_some(),
                        None => false,
                    }
                };
                if ok { Some(g) } else { None }
            },
            None => None,
        };
        if let Some(g) = hit {
            assert(marker_hit(work@, k as int) == Some(g@));
            let season = if k == 0 || k == 1 {
                match group_u32(work, &g, 1) {
                    Some(n) => Some(n),
                    None => return Err(()),
                }
            } else {
                None
            };
            let eg: usize = if k == 0 || k == 1 { 2 } else { 1 };
            let episode = match group_u32(work, &g, eg) {
                Some(n) => n,
                None => return Err(()),
            };
            let (ms, me) = g[0].unwrap();
            let title_end = if k == 7 { 0 } else { ms };
            return Ok(Some(Marker { season, episode, title_end, start: ms, end: me, weak: k == 7 || k == 8 }));
        }
        k = k + 1;
    }
    Ok(None)
}

// ---------------------------------------------------------------------------
// The whole parse
// ---------------------------------------------------------------------------

/// The stem with bracket tokens blanked and separators turned into spaces.
pub open spec fn work_spec(stem: Seq<char>) -> Seq<char> {
    map_chars(replace_all_matches(BRACKET@, stem, " "@), underscore_or_dot(), ' ')
}

/// The text before the first resolution token (everything after it is release metadata).
pub open spec fn cut_at_resolution(w: Seq<char>) -> Seq<char> {
    match leftmost_match(RES@, w) {
        Some(sp) => w.subrange(0, sp.0 as int),
        None => w,
    }
}

/// The resolution: a bracketed one, else the first resolution token of the stem.
pub open spec fn resolution_spec(stem: Seq<char>) -> Option<Seq<char>> {
    let b = bracket_facts(stem).resolution;
    if b is Some {
        b
    } else {
        let w = work_spec(stem);
        match leftmost_match(RES@, w) {
            Some(sp) => Some(text_of(w, sp)),
            None => None,
        }
    }
}

/// Where a special keyword is allowed to count: the marker plus anything glued to it up to
/// the next " - " (which introduces an episode subtitle); with no marker, the whole stem.
pub open spec fn special_region(w: Seq<char>, m: Option<MarkerModel>) -> Seq<char> {
    match m {
        Some(mk) => {
            let cut = match find_from(w, " - "@, mk.end) {
                Some(j) => j,
                None => w.len() as int,
            };
            w.subrange(mk.title_end, cut)
        },
        None => w,
    }
}

/// A title that is nothing but a special keyword ("NCED - 03").
pub open spec fn bare_marker_spec(title_text: Seq<char>) -> bool {
    match leftmost_match(SPECIAL@, title_text) {
        Some(sp) => clean_title_spec(title_text.subrange(0, sp.0 as int)
            + title_text.subrange(sp.1 as int, title_text.len() as int)).len() == 0,
        None => false,
    }
}

/// The full parse of a file stem with its ancestor folder names (nearest first).
pub open spec fn parse_spec(stem: Seq<char>, dirs: Seq<Seq<char>>) -> Option<NameModel> {
    if leftmost_match(JUNK_STEM@, stem) is Some {
        None
    } else {
        let bf = bracket_facts(stem);
        let w = cut_at_resolution(work_spec(stem));
        match marker_spec(w) {
            Err(()) => None,
            Ok(mk) => {
                let title_end = match mk { Some(m) => m.title_end, None => w.len() as int };
                let title_text = w.subrange(0, title_end);
                let bare = bare_marker_spec(title_text);
                let is_special = bf.special is Some
                    || leftmost_match(SPECIAL@, special_region(w, mk)) is Some || bare;
                let episode0: Option<u32> = match mk {
                    Some(m) => Some(m.episode),
                    None => if is_special {
                        match bf.special { Some(Some(n)) => Some(n), _ => Some(1u32) }
                    } else {
                        None
                    },
                };
                let title1 = if is_special && (mk is None || bare) {
                    match leftmost_match(SPECIAL@, title_text) {
                        Some(sp) => title_text.subrange(0, sp.0 as int),
                        None => title_text,
                    }
                } else {
                    title_text
                };
                let title2 = clean_title_spec(title1);
                let marker_season = match mk { Some(m) => m.season, None => None };
                let (title3, season3, bare_s) = if marker_season is None {
                    let had_s = match leftmost_captures(SEASON_SUFFIX@, title2) {
                        Some(g) => group(g, 4) is Some,
                        None => false,
                    };
                    let (t, s) = strip_season_suffix_spec(title2);
                    (t, s, had_s && s is Some)
                } else {
                    (title2, marker_season, false)
                };
                let weak = match mk { Some(m) => m.weak, None => false };
                let (is_special4, episode4, season4, low4) = match episode0 {
                    Some(e) => (is_special, e, season3, weak),
                    None => if bare_s {
                        (true, season3->0, None::<u32>, weak)
                    } else {
                        (is_special, 1u32, season3, weak || !is_special)
                    },
                };
                let from_dirs = if title3.len() == 0 { title_from_dirs_spec(dirs, 0) } else { None };
                if title3.len() == 0 && from_dirs is None {
                    None
                } else {
                    let (title5, season5, low5) = if title3.len() == 0 {
                        let (t, s) = from_dirs->0;
                        (t, if season4 is None { s } else { season4 }, true)
                    } else {
                        (title3, season4, low4)
                    };
                    let season = if is_special4 {
                        0u32
                    } else {
                        match season5 {
                            Some(s) => s,
                            None => match season_from_dirs_spec(dirs, 0) { Some(s) => s, None => 1u32 },
                        }
                    };
                    if title5.len() == 0 {
                        None
                    } else {
                        Some(NameModel {
                            title: title5,
                            season,
                            episode: episode4,
                            release_group: bf.group,
                            resolution: resolution_spec(stem),
                            crc: bf.crc,
                            low_confidence: low5,
                        })
                    }
                }
            },
        }
    }
}

/// No White_Space at either end.
pub open spec fn trimmed(t: Seq<char>) -> bool {
    t.len() == 0 || (!crate::text::unicode_whitespace(t[0]) && !crate::text::unicode_whitespace(t.last()))
}

proof fn lemma_trim_start_suffix(s: Seq<char>, p: spec_fn(char) -> bool)
    ensures
        ({
            let r = crate::text::trim_start_by(s, p);
            &&& r.len() <= s.len()
            &&& r == s.subrange(s.len() - r.len(), s.len() as int)
            &&& r.len() > 0 ==> !p(r[0])
        }),
    decreases s.len(),
{
    if s.len() > 0 && p(s[0]) {
        lemma_trim_start_suffix(s.drop_first(), p);
        let r = crate::text::trim_start_by(s, p);
        assert(r == s.drop_first().subrange(s.len() - 1 - r.len(), s.len() - 1));
        assert(s.drop_first().subrange(s.len() - 1 - r.len(), s.len() - 1) =~= s.subrange(s.len() - r.len(), s.len() as int));
    } else {
        assert(s.subrange(0, s.len() as int) =~= s);
    }
}

proof fn lemma_trim_end_prefix(s: Seq<char>, p: spec_fn(char) -> bool)
    ensures
        ({
            let r = crate::text::trim_end_by(s, p);
            &&& r.len() <= s.len()
            &&& r == s.subrange(0, r.len() as int)
            &&& r.len() > 0 ==> !p(r.last())
        }),
    decreases s.len(),
{
    if s.len() > 0 && p(s.last()) {
        lemma_trim_end_prefix(s.drop_last(), p);
        let r = crate::text::trim_end_by(s, p);
        assert(s.drop_last().subrange(0, r.len() as int) =~= s.subrange(0, r.len() as int));
    } else {
        assert(s.subrange(0, s.len() as int) =~= s);
    }
}

pub(crate) proof fn lemma_trim_trimmed(s: Seq<char>)
    ensures
        trimmed(crate::text::trim(s)),
{
    let p = crate::text::ws();
    let a = crate::text::trim_start_by(s, p);
    lemma_trim_start_suffix(s, p);
    lemma_trim_end_prefix(a, p);
    let r = crate::text::trim_end_by(a, p);
    if r.len() > 0 {
        assert(r[0] == a[0]);
        assert(!p(a[0]));
        assert(!p(r.last()));
    }
}

proof fn lemma_strip_trimmed(x: Seq<char>)
    ensures
        trimmed(strip_season_suffix_spec(clean_title_spec(x)).0),
{
    let t = clean_title_spec(x);
    lemma_trim_trimmed(crate::text::trim_by(crate::text::trim(replace_first_match(NOISE_TAIL@,
        crate::text::trim(crate::text::trim_by(crate::text::trim(replace_all_matches(WS@,
        map_chars(x, underscore_or_dot(), ' '), " "@)), dash_or_space())), ""@)), dash_or_space()));
    match leftmost_captures(SEASON_SUFFIX@, t) {
        Some(g) => {
            let start = match g[0] { Some(sp) => sp.0, None => 0 };
            let y = t.subrange(0, start as int);
            lemma_trim_trimmed(crate::text::trim_by(crate::text::trim(replace_first_match(NOISE_TAIL@,
                crate::text::trim(crate::text::trim_by(crate::text::trim(replace_all_matches(WS@,
                map_chars(y, underscore_or_dot(), ' '), " "@)), dash_or_space())), ""@)), dash_or_space()));
        },
        None => match leftmost_captures(ROMAN_SUFFIX@, t) {
            Some(g) => {
                let start = match g[0] { Some(sp) => sp.0, None => 0 };
                let y = t.subrange(0, start as int);
                lemma_trim_trimmed(crate::text::trim_by(crate::text::trim(replace_first_match(NOISE_TAIL@,
                    crate::text::trim(crate::text::trim_by(crate::text::trim(replace_all_matches(WS@,
                    map_chars(y, underscore_or_dot(), ' '), " "@)), dash_or_space())), ""@)), dash_or_space()));
            },
            None => {},
        },
    }
}

proof fn lemma_dirs_title_trimmed(dirs: Seq<Seq<char>>, i: int)
    ensures
        title_from_dirs_spec(dirs, i) matches Some((t, _)) ==> trimmed(t),
    decreases dirs.len() - i,
{
    if 0 <= i < dirs.len() {
        let d = crate::text::trim(dirs[i]);
        lemma_strip_trimmed(dir_work_spec(d));
        lemma_dirs_title_trimmed(dirs, i + 1);
    }
}

/// A parsed title is never empty and carries no leading or trailing White_Space.
pub proof fn lemma_parsed_title_shape(stem: Seq<char>, dirs: Seq<Seq<char>>)
    ensures
        parse_spec(stem, dirs) matches Some(n) ==> n.title.len() > 0 && trimmed(n.title),
{
    let w = cut_at_resolution(work_spec(stem));
    lemma_dirs_title_trimmed(dirs, 0);
    if let Ok(mk) = marker_spec(w) {
        let title_end = match mk { Some(m) => m.title_end, None => w.len() as int };
        let title_text = w.subrange(0, title_end);
        let bare = bare_marker_spec(title_text);
        let bf = bracket_facts(stem);
        let is_special = bf.special is Some
            || leftmost_match(SPECIAL@, special_region(w, mk)) is Some || bare;
        let title1 = if is_special && (mk is None || bare) {
            match leftmost_match(SPECIAL@, title_text) {
                Some(sp) => title_text.subrange(0, sp.0 as int),
                None => title_text,
            }
        } else {
            title_text
        };
        lemma_strip_trimmed(title1);
        lemma_trim_trimmed(crate::text::trim_by(crate::text::trim(replace_first_match(NOISE_TAIL@,
            crate::text::trim(crate::text::trim_by(crate::text::trim(replace_all_matches(WS@,
            map_chars(title1, underscore_or_dot(), ' '), " "@)), dash_or_space())), ""@)), dash_or_space()));
    }
}

proof fn lemma_first_marker_hit(work: Seq<char>, k0: int)
    ensures
        first_marker(work, k0) matches Some((k, g)) ==> k0 <= k < 9 && marker_hit(work, k) == Some(g),
    decreases 9 - k0,
{
    if 0 <= k0 < 9 && marker_hit(work, k0) is None {
        lemma_first_marker_hit(work, k0 + 1);
    }
}

/// A year is never read as an episode from a season/episode marker: whenever the name's
/// marker is one of those that refuse years (all but the special-number one, whose number
/// has at most three digits), the parsed episode lies outside 1900–2099.
pub proof fn lemma_marker_episode_not_year(stem: Seq<char>, dirs: Seq<Seq<char>>)
    ensures
        match (parse_spec(stem, dirs), first_marker(cut_at_resolution(work_spec(stem)), 0)) {
            (Some(n), Some((k, _))) => marker_year_filter(k) ==> !(1900 <= n.episode <= 2099),
            _ => true,
        },
{
    let w = cut_at_resolution(work_spec(stem));
    lemma_first_marker_hit(w, 0);
    if let Some((k, g)) = first_marker(w, 0) {
        if marker_year_filter(k) {
            assert(ep_ok(w, g, marker_ep_group(k)));
        }
    }
}

fn into_string(v: Option<Vec<char>>) -> (r: Option<String>)
    ensures
        opt_str(r) == opt_chars(v),
{
    match v {
        Some(c) => Some(crate::text::string_of(c.as_slice())),
        None => None,
    }
}

fn special_in_region(w: &[char], mk: &Option<Marker>) -> (r: bool)
    requires
        mk matches Some(m) ==> m.title_end <= m.start <= m.end <= w@.len(),
    ensures
        r == (leftmost_match(SPECIAL@, special_region(w@, match mk { Some(m) => Some(m.model()), None => None })) is Some),
{
    match mk {
        Some(m) => {
            let sep = crate::text::str_chars(" - ");
            let cut = match crate::text::find_sub_from(w, sep.as_slice(), m.end) {
                Some(j) => j,
                None => w.len(),
            };
            let ghost mm = m.model();
            assert(sep@ == " - "@);
            assert(mm.end == m.end as int);
            let ghost cut_spec = match find_from(w@, " - "@, mm.end) { Some(j) => j, None => w@.len() as int };
            assert(cut as int == cut_spec);
            let region = crate::text::slice_chars(w, m.title_end, cut);
            assert(region@ == special_region(w@, Some(mm)));
            crate::pattern::is_match(SPECIAL, region.as_slice())
        },
        None => crate::pattern::is_match(SPECIAL, w),
    }
}

fn bare_marker(title_text: &[char]) -> (r: bool)
    ensures
        r == bare_marker_spec(title_text@),
{
    match crate::pattern::find(SPECIAL, title_text) {
        Some((a, b)) => {
            let mut rest = crate::text::slice_chars(title_text, 0, a);
            let tail = crate::text::slice_chars(title_text, b, title_text.len());
            crate::text::push_all(&mut rest, tail.as_slice());
            clean_title(rest.as_slice()).len() == 0
        },
        None => false,
    }
}

/// Parse a video file stem. `dirs` are the ancestor directory names, nearest first, up to and
/// including the scan root; they supply the season ("Season 2") and, when the stem has no title
/// of its own, the show name.
pub fn parse_with_confidence(stem: &str, dirs: &[String]) -> (r: Option<Parsed>)
    ensures
        match r {
            Some(p) => parse_spec(stem@, dir_texts(dirs@)) == Some(p.model()),
            None => parse_spec(stem@, dir_texts(dirs@)) is None,
        },
        r matches Some(p) ==> p.name.title@.len() > 0 && trimmed(p.name.title@)
            && crate::text::no_separator(p.name.title@),
{
    proof { lemma_parsed_title_shape(stem@, dir_texts(dirs@)); }
    let st = crate::text::chars_of(stem);
    if crate::pattern::is_match(JUNK_STEM, st.as_slice()) {
        return None;
    }
    // Pass 1: bracket tokens → group / crc / resolution / special marker
    let bf = scan_brackets(st.as_slice());
    let blanked = crate::pattern::replace_all(BRACKET, st.as_slice(), " ");
    let full = crate::text::spaces_for_separators(blanked.as_slice());
    let resolution = if bf.resolution.is_some() {
        bf.resolution
    } else {
        match crate::pattern::find(RES, full.as_slice()) {
            Some((a, b)) => Some(crate::text::slice_chars(full.as_slice(), a, b)),
            None => None,
        }
    };
    // Strip a trailing "1080p WEB x264"-style tail: everything from the resolution token on.
    let w = match crate::pattern::find(RES, full.as_slice()) {
        Some((a, _)) => crate::text::slice_chars(full.as_slice(), 0, a),
        None => full,
    };
    let ghost wv = w@;
    assert(wv == cut_at_resolution(work_spec(st@)));
    // Pass 2: season/episode markers.
    let mk = match find_marker(w.as_slice()) {
        Ok(m) => m,
        Err(()) => return None,
    };
    let ghost mkm: Option<MarkerModel> = match mk { Some(m) => Some(m.model()), None => None };
    assert(marker_spec(wv) == Ok::<Option<MarkerModel>, ()>(mkm));
    let title_end: usize = match &mk { Some(m) => m.title_end, None => w.len() };
    let title_text = crate::text::slice_chars(w.as_slice(), 0, title_end);
    let bare = bare_marker(title_text.as_slice());
    let is_special = bf.special.is_some() || special_in_region(w.as_slice(), &mk) || bare;
    let episode0: Option<u32> = match &mk {
        Some(m) => Some(m.episode),
        None => if is_special {
            match bf.special { Some(Some(n)) => Some(n), _ => Some(1u32) }
        } else {
            None
        },
    };
    let title1 = if is_special && (mk.is_none() || bare) {
        match crate::pattern::find(SPECIAL, title_text.as_slice()) {
            Some((a, _)) => crate::text::slice_chars(title_text.as_slice(), 0, a),
            None => title_text,
        }
    } else {
        title_text
    };
    // Pass 3: season suffix in title
    let title2 = clean_title(title1.as_slice());
    let marker_season: Option<u32> = match &mk { Some(m) => m.season, None => None };
    let (title3, season3, bare_s) = if marker_season.is_none() {
        let had_s = match crate::pattern::captures(SEASON_SUFFIX, title2.as_slice()) {
            Some(g) => crate::pattern::get_group(&g, 4).is_some(),
            None => false,
        };
        let (t, s) = strip_season_suffix(title2.as_slice());
        let b = had_s && s.is_some();
        (t, s, b)
    } else {
        (title2, marker_season, false)
    };
    let weak = match &mk { Some(m) => m.weak, None => false };
    // A bare "Show - S3" with no episode anywhere is a numbered special, not season 3.
    let (is_special4, episode4, season4, low4) = match episode0 {
        Some(e) => (is_special, e, season3, weak),
        None => if bare_s {
            (true, season3.unwrap(), None, weak)
        } else {
            (is_special, 1u32, season3, weak || !is_special)
        },
    };
    // Pass 4: stem carried no title → fall back to the ancestor directories
    let (title5, season5, low5) = if title3.len() == 0 {
        match title_from_dirs(dirs) {
            Some((t, s)) => (t, if season4.is_none() { s } else { season4 }, true),
            None => return None,
        }
    } else {
        (title3, season4, low4)
    };
    // Pass 5: fallbacks
    let season = if is_special4 {
        0u32
    } else {
        match season5 {
            Some(s) => s,
            None => match season_from_dirs(dirs) { Some(s) => s, None => 1u32 },
        }
    };
    if title5.len() == 0 {
        return None;
    }
    let name = ParsedName {
        title: crate::text::string_of(title5.as_slice()),
        season,
        episode: episode4,
        release_group: into_string(bf.group),
        resolution: into_string(resolution),
        crc: into_string(bf.crc),
    };
    Some(Parsed { name, low_confidence: low5 })
}

pub fn parse(stem: &str, dirs: &[String]) -> (r: Option<ParsedName>)
    ensures
        match r {
            Some(n) => parse_spec(stem@, dir_texts(dirs@)) matches Some(m) && m.title == n.title@
                && m.season == n.season && m.episode == n.episode
                && m.release_group == opt_str(n.release_group) && m.resolution == opt_str(n.resolution)
                && m.crc == opt_str(n.crc),
            None => parse_spec(stem@, dir_texts(dirs@)) is None,
        },
{
    match parse_with_confidence(stem, dirs) {
        Some(p) => Some(p.name),
        None => None,
    }
}

} // verus!
