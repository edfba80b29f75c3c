//! Remux cache naming and the played-marking threshold.
use vstd::prelude::*;
use crate::text::signed_decimal;

verus! {

/// 2 GiB cap for the remux cache; oldest files by mtime go first.
pub const REMUX_CACHE_CAP_BYTES: u64 = 2_147_483_648;

/// Bound, in seconds, for one on-demand transcode at serve time (thirty minutes).
pub const REMUX_TIMEOUT_SECS: u64 = 1800;

/// `dir.join(name)` for a relative `name` on a `/`-separated path.
pub open spec fn path_join(dir: Seq<char>, name: Seq<char>) -> Seq<char> {
    if dir.len() == 0 {
        name
    } else if dir.last() == '/' {
        dir + name
    } else {
        dir + "/"@ + name
    }
}

pub fn join_path(dir: &str, name: &[char]) -> (r: String)
    ensures
        r@ == path_join(dir@, name@),
{
    let mut v = crate::text::chars_of(dir);
    if v.len() > 0 && v[v.len() - 1] != '/' {
        v.push('/');
        proof { reveal_strlit("/"); }
    }
    crate::text::push_all(&mut v, name);
    assert(v@ =~= path_join(dir@, name@));
    crate::text::string_of(v.as_slice())
}

/// Cache file name: episode id, source size and mtime down to the nanosecond.
pub open spec fn remux_name(episode_id: int, size: int, mtime_secs: int, mtime_nanos: nat) -> Seq<char> {
    signed_decimal(episode_id) + "-"@ + signed_decimal(size) + "-"@ + signed_decimal(mtime_secs) + "-"@
        + crate::text::decimal(mtime_nanos) + ".mp4"@
}

/// Cache key: episode id plus the source's size and mtime down to the nanosecond, so
/// replacing the file on disk can never serve a stale transcode of the previous bytes.
pub fn remux_path(cache: &str, episode_id: i64, size: i64, mtime_secs: i64, mtime_nanos: u32) -> (r: String)
    ensures
        r@ == path_join(cache@, remux_name(episode_id as int, size as int, mtime_secs as int, mtime_nanos as nat)),
{
    let mut n: Vec<char> = Vec::new();
    crate::text::push_i64(&mut n, episode_id);
    crate::text::push_str(&mut n, "-");
    crate::text::push_i64(&mut n, size);
    crate::text::push_str(&mut n, "-");
    crate::text::push_i64(&mut n, mtime_secs);
    crate::text::push_str(&mut n, "-");
    crate::text::push_u64(&mut n, mtime_nanos as u64);
    crate::text::push_str(&mut n, ".mp4");
    assert(n@ =~= remux_name(episode_id as int, size as int, mtime_secs as int, mtime_nanos as nat));
    join_path(cache, n.as_slice())
}

/// Played once at least 85% of the bytes went out; a zero total never marks.
pub open spec fn should_mark_played_spec(bytes_sent: int, total: int) -> bool {
    total > 0 && bytes_sent * 100 >= total * 85
}

pub fn should_mark_played(bytes_sent: u64, total: u64) -> (r: bool)
    ensures
        r == should_mark_played_spec(bytes_sent as int, total as int),
{
    total > 0 && (bytes_sent as u128) * 100 >= (total as u128) * 85
}

/// Sending more bytes never takes a mark back: the threshold is monotone in the bytes sent.
pub proof fn lemma_mark_played_monotone(a: int, b: int, total: int)
    requires
        a <= b,
        should_mark_played_spec(a, total),
    ensures
        should_mark_played_spec(b, total),
{
}

/// The characters ffmpeg's `subtitles=` filter value treats structurally, plus the backslash.
pub open spec fn filter_special(c: char) -> bool {
    c == '\\' || c == '\'' || c == ':' || c == ',' || c == '[' || c == ']' || c == ';' || c == '='
}

pub open spec fn escape_filter_spec(s: Seq<char>) -> Seq<char>
    decreases s.len(),
{
    if s.len() == 0 {
        Seq::empty()
    } else if filter_special(s.last()) {
        escape_filter_spec(s.drop_last()) + seq!['\\', s.last()]
    } else {
        escape_filter_spec(s.drop_last()).push(s.last())
    }
}

/// Escape a path for ffmpeg's `subtitles=` filter value: every special character gets a
/// backslash, so a hostile file name cannot inject extra filters.
pub fn escape_filter_path(p: &str) -> (r: String)
    ensures
        r@ == escape_filter_spec(p@),
{
    let s = crate::text::chars_of(p);
    let mut o: Vec<char> = Vec::new();
    let mut i: usize = 0;
    while i < s.len()
        invariant
            i <= s@.len(),
            o@ == escape_filter_spec(s@.subrange(0, i as int)),
        decreases s@.len() - i,
    {
        let c = s[i];
        if c == '\\' || c == '\'' || c == ':' || c == ',' || c == '[' || c == ']' || c == ';' || c == '=' {
            o.push('\\');
        }
        o.push(c);
        proof {
            let t = s@.subrange(0, i + 1);
            assert(t.drop_last() =~= s@.subrange(0, i as int));
            assert(t.last() == c);
            assert(o@ =~= escape_filter_spec(t));
        }
        i = i + 1;
    }
    assert(s@.subrange(0, s@.len() as int) =~= s@);
    crate::text::string_of(o.as_slice())
}

/// A finished transcode in the cache: when it was last written and its length.
#[derive(Debug, Clone, Copy, PartialEq, Eq)]
pub struct CacheFile {
    /// Modification time: seconds and nanoseconds since the Unix epoch.
    pub modified: (u64, u32),
    pub len: u64,
}

/// `a` was modified strictly before `b`.
pub open spec fn older(a: (u64, u32), b: (u64, u32)) -> bool {
    a.0 < b.0 || (a.0 == b.0 && a.1 < b.1)
}

/// Entry `i` of the eviction order comes before entry `j`: it is older, or equally old and
/// listed first.
pub open spec fn evicts_before(files: Seq<CacheFile>, i: int, j: int) -> bool {
    older(files[i].modified, files[j].modified) || (files[i].modified == files[j].modified && i < j)
}

/// An order of eviction for `files`: every index once, oldest first, ties in listing order.
pub open spec fn eviction_order_ok(files: Seq<CacheFile>, r: Seq<usize>) -> bool {
    &&& r.len() == files.len()
    &&& forall|k: int| 0 <= k < r.len() ==> #[trigger] r[k] < files.len()
    &&& forall|a: int, b: int| 0 <= a < b < r.len() ==> evicts_before(files, #[trigger] r[a] as int, #[trigger] r[b] as int)
}

/// The cache total the eviction starts from: every file's length, saturating.
pub open spec fn cache_total_spec(files: Seq<CacheFile>) -> nat
    decreases files.len(),
{
    if files.len() == 0 {
        0
    } else {
        let t: nat = cache_total_spec(files.drop_last()) + files.last().len as nat;
        if t > u64::MAX { u64::MAX as nat } else { t }
    }
}

pub fn cache_total(files: &[CacheFile]) -> (r: u64)
    ensures
        r == cache_total_spec(files@),
{
    let mut t: u64 = 0;
    let mut i: usize = 0;
    while i < files.len()
        invariant
            i <= files@.len(),
            t == cache_total_spec(files@.take(i as int)),
        decreases files@.len() - i,
    {
        assert(files@.take(i + 1).drop_last() =~= files@.take(i as int));
        t = t.saturating_add(files[i].len);
        i = i + 1;
    }
    assert(files@.take(files@.len() as int) =~= files@);
    t
}

fn is_older(a: (u64, u32), b: (u64, u32)) -> (r: bool)
    ensures
        r == older(a, b),
{
    a.0 < b.0 || (a.0 == b.0 && a.1 < b.1)
}

/// The order in which the cache is trimmed: least recently written first (a stable order, so
/// files written in the same instant go in listing order).
pub fn eviction_order(files: &[CacheFile]) -> (r: Vec<usize>)
    ensures
        eviction_order_ok(files@, r@),
{
    let mut out: Vec<usize> = Vec::new();
    let mut i: usize = 0;
    while i < files.len()
        invariant
            i <= files@.len(),
            out@.len() == i,
            forall|k: int| 0 <= k < out@.len() ==> #[trigger] out@[k] < i,
            forall|a: int, b: int| 0 <= a < b < out@.len() ==> evicts_before(files@, #[trigger] out@[a] as int, #[trigger] out@[b] as int),
        decreases files@.len() - i,
    {
        let mi = files[i].modified;
        let mut p: usize = 0;
        while p < out.len() && !is_older(mi, files[out[p]].modified)
            invariant
                p <= out@.len(),
                out@.len() == i,
                i < files@.len(),
                mi == files@[i as int].modified,
                forall|k: int| 0 <= k < out@.len() ==> #[trigger] out@[k] < i,
                forall|k: int| 0 <= k < p ==> !older(mi, files@[#[trigger] out@[k] as int].modified),
            decreases out@.len() - p,
        {
            p = p + 1;
        }
        let ghost before = out@;
        out.insert(p, i);
        proof {
            assert forall|k: int| 0 <= k < out@.len() implies #[trigger] out@[k] < i + 1 by {
                if k < p {
                    assert(out@[k] == before[k]);
                } else if k > p {
                    assert(out@[k] == before[k - 1]);
                }
            }
            assert forall|a: int, b: int| 0 <= a < b < out@.len() implies evicts_before(files@, #[trigger] out@[a] as int, #[trigger] out@[b] as int) by {
                let fa = out@[a] as int;
                let fb = out@[b] as int;
                if a < p && b < p {
                    assert(out@[a] == before[a] && out@[b] == before[b]);
                } else if a < p && b == p {
                    assert(out@[a] == before[a]);
                    assert(!older(mi, files@[before[a] as int].modified));
                } else if a < p && b > p {
                    assert(out@[a] == before[a] && out@[b] == before[b - 1]);
                } else if a == p {
                    assert(out@[b] == before[b - 1]);
                    if b - 1 == p {
                        assert(older(mi, files@[before[p as int] as int].modified));
                    } else {
                        assert(evicts_before(files@, before[p as int] as int, before[b - 1] as int));
                        assert(older(mi, files@[before[p as int] as int].modified));
                    }
                } else {
                    assert(out@[a] == before[a - 1] && out@[b] == before[b - 1]);
                }
            }
        }
        i = i + 1;
    }
    out
}

/// Whether eviction goes on: only while the cache total is over the cap.
pub fn evict_more(total: u64, cap: u64) -> (r: bool)
    ensures
        r == (total > cap),
{
    total > cap
}

/// The cache total after one eviction attempt: a removed file's length comes off (never
/// below zero); a file that could not be removed still counts.
pub fn total_after_eviction(total: u64, len: u64, removed: bool) -> (r: u64)
    ensures
        r == (if removed { if len >= total { 0int } else { total - len } } else { total as int }),
        r <= total,
{
    if removed { total.saturating_sub(len) } else { total }
}

/// The name of one transcode attempt's temporary file next to the cache file `<stem>.mp4`:
/// `<stem>.<pid>-<seq>.tmp`, unique per process and attempt, so two writers never share it.
pub fn tmp_name(stem: &str, pid: u32, seq: u64) -> (r: String)
    ensures
        r@ == stem@ + "."@ + crate::text::decimal(pid as nat) + "-"@ + crate::text::decimal(seq as nat) + ".tmp"@,
{
    let mut v = crate::text::chars_of(stem);
    crate::text::push_str(&mut v, ".");
    crate::text::push_u64(&mut v, pid as u64);
    crate::text::push_str(&mut v, "-");
    crate::text::push_u64(&mut v, seq);
    crate::text::push_str(&mut v, ".tmp");
    crate::text::string_of(v.as_slice())
}

/// Whether a cache directory entry is a leftover attempt at the cache file `<stem>.mp4`.
pub open spec fn stale_tmp_spec(stem: Seq<char>, name: Seq<char>) -> bool {
    crate::text::is_prefix(stem + "."@, name) && crate::text::is_suffix(".tmp"@, name)
}

pub fn is_stale_tmp(stem: &str, name: &str) -> (r: bool)
    ensures
        r == stale_tmp_spec(stem@, name@),
{
    let mut p = crate::text::chars_of(stem);
    crate::text::push_str(&mut p, ".");
    let n = crate::text::chars_of(name);
    crate::text::starts_with(n.as_slice(), p.as_slice()) && crate::text::ends_with_str(n.as_slice(), ".tmp")
}

/// Whether ffprobe's stream listing (JSON) shows an ASS/SSA subtitle stream: such styling
/// cannot survive as mov_text and is burned into the picture instead.
pub open spec fn probe_has_ass_spec(listing: Seq<char>) -> bool {
    let t = crate::text::unicode_lowercase(listing);
    crate::text::find_from(t, "subtitle"@, 0) is Some
        && (crate::text::find_from(t, "\"ass\""@, 0) is Some || crate::text::find_from(t, "\"ssa\""@, 0) is Some)
}

pub fn probe_has_ass(listing: &str) -> (r: bool)
    ensures
        r == probe_has_ass_spec(listing@),
{
    let t = crate::text::to_lowercase(crate::text::chars_of(listing).as_slice());
    let has = |p: &str| -> (b: bool)
        ensures
            b == (crate::text::find_from(t@, p@, 0) is Some),
        {
            let pc = crate::text::chars_of(p);
            crate::text::find_sub_from(t.as_slice(), pc.as_slice(), 0).is_some()
        };
    has("subtitle") && (has("\"ass\"") || has("\"ssa\""))
}

/// The ffmpeg arguments of one transcode `src` to `tmp`: H.264/AAC MP4 with faststart; ASS
/// subtitles burned in through the escaped `subtitles=` filter, any other kept as mov_text.
pub open spec fn ffmpeg_args_spec(src: Seq<char>, tmp: Seq<char>, ass: bool) -> Seq<Seq<char>> {
    seq!["-y"@, "-nostdin"@, "-i"@, src, "-c:v"@, "libx264"@, "-preset"@, "veryfast"@, "-c:a"@, "aac"@]
        + (if ass { seq!["-vf"@, "subtitles='"@ + escape_filter_spec(src) + "'"@] } else { seq!["-c:s"@, "mov_text"@] })
        + seq!["-movflags"@, "+faststart"@, tmp]
}

fn owned(s: &str) -> (r: String)
    ensures
        r@ == s@,
{
    crate::text::string_of(crate::text::chars_of(s).as_slice())
}

pub fn ffmpeg_args(src: &str, tmp: &str, ass: bool) -> (r: Vec<String>)
    ensures
        r@.map_values(|a: String| a@) == ffmpeg_args_spec(src@, tmp@, ass),
{
    let mut v: Vec<String> = Vec::new();
    v.push(owned("-y"));
    v.push(owned("-nostdin"));
    v.push(owned("-i"));
    v.push(owned(src));
    v.push(owned("-c:v"));
    v.push(owned("libx264"));
    v.push(owned("-preset"));
    v.push(owned("veryfast"));
    v.push(owned("-c:a"));
    v.push(owned("aac"));
    if ass {
        v.push(owned("-vf"));
        let mut f = crate::text::chars_of("subtitles='");
        let e = escape_filter_path(src);
        crate::text::push_str(&mut f, e.as_str());
        crate::text::push_str(&mut f, "'");
        v.push(crate::text::string_of(f.as_slice()));
    } else {
        v.push(owned("-c:s"));
        v.push(owned("mov_text"));
    }
    v.push(owned("-movflags"));
    v.push(owned("+faststart"));
    v.push(owned(tmp));
    assert(v@.map_values(|a: String| a@) =~= ffmpeg_args_spec(src@, tmp@, ass));
    v
}

} // verus!
