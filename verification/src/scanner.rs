//! Which files of a library folder are videos, how each is read, and how a scan counts
//! what became of them.
use vstd::prelude::*;
use crate::paths::extension_of;
use crate::text::ascii_lower_seq;
use crate::parser::{Parsed, ParsedName, NameModel, parse_spec, dir_texts, opt_str};
use crate::models::{ParseOverride, RootScan, ScanSummary};

verus! {

/// Extensions (lowercase) of the files the scanner picks up.
pub open spec fn video_ext(e: Seq<char>) -> bool {
    e == "mkv"@ || e == "mp4"@ || e == "avi"@ || e == "webm"@ || e == "mov"@ || e == "ts"@ || e == "m4v"@
}

/// A file found under a library root.
#[derive(Debug, Clone, PartialEq)]
pub struct RawFile {
    pub path: String,
    pub size: u64,
    pub mtime: i64,
    pub stem: String,
    pub parent_dir: String,
}

pub fn is_video_ext(e: &[char]) -> (r: bool)
    ensures
        r == video_ext(ascii_lower_seq(e@)),
{
    let mut low: Vec<char> = Vec::new();
    let mut i: usize = 0;
    while i < e.len()
        invariant
            i <= e@.len(),
            low@ == ascii_lower_seq(e@).subrange(0, i as int),
        decreases e@.len() - i,
    {
        low.push(crate::text::to_ascii_lower(e[i]));
        assert(ascii_lower_seq(e@).subrange(0, i + 1) =~= ascii_lower_seq(e@).subrange(0, i as int).push(low@[i as int]));
        i = i + 1;
    }
    assert(ascii_lower_seq(e@).subrange(0, e@.len() as int) =~= ascii_lower_seq(e@));
    let l = low.as_slice();
    crate::text::eq_str(l, "mkv") || crate::text::eq_str(l, "mp4") || crate::text::eq_str(l, "avi")
        || crate::text::eq_str(l, "webm") || crate::text::eq_str(l, "mov") || crate::text::eq_str(l, "ts")
        || crate::text::eq_str(l, "m4v")
}

/// Whether a path names a video file: its extension, ASCII-lowercased, is a known one.
pub fn is_video(path: &str) -> (r: bool)
    ensures
        r == (extension_of(path@) matches Some(e) && video_ext(ascii_lower_seq(e))),
{
    match crate::paths::extension(path) {
        Some(e) => {
            let c = crate::text::chars_of(e.as_str());
            is_video_ext(c.as_slice())
        },
        None => false,
    }
}

/// A library root is unreadable when it is not a folder, or when walking it found no files
/// and reported errors (an unmounted share). Its episodes are then left untouched: it never
/// drives missing-detection.
pub fn root_unreadable(is_dir: bool, files_found: usize, errors: usize) -> (r: bool)
    ensures
        r == (!is_dir || (files_found == 0 && errors > 0)),
{
    !is_dir || (files_found == 0 && errors > 0)
}

/// How the scan reads one file.
#[derive(Debug, Clone, PartialEq)]
pub enum FileParse {
    /// An `ignore` override: the file is seen but not stored.
    Ignored,
    /// Stored under this name; `low_confidence` queues its folder for a second opinion.
    Parsed { name: ParsedName, low_confidence: bool },
    /// Neither an override nor the parser could place it.
    Unparseable,
}

/// The scan's reading of a file: an override (from the user or the language model) wins
/// over the parser for title, season and number, keeping the parser's group, resolution and
/// CRC; an `ignore` override skips the file; without one, the parser decides.
pub open spec fn file_parse_spec(ov: Option<ParseOverride>, stem: Seq<char>, dirs: Seq<Seq<char>>, r: FileParse) -> bool {
    match ov {
        Some(o) => if o.kind@ == "ignore"@ {
            r == FileParse::Ignored
        } else {
            r matches FileParse::Parsed { name, low_confidence } && !low_confidence
                && name.title@ == o.title@ && name.season == o.season && name.episode == o.number
                && match parse_spec(stem, dirs) {
                    Some(m) => opt_str(name.release_group) == m.release_group && opt_str(name.resolution) == m.resolution
                        && opt_str(name.crc) == m.crc,
                    None => name.release_group is None && name.resolution is None && name.crc is None,
                }
        },
        None => match parse_spec(stem, dirs) {
            Some(m) => r matches FileParse::Parsed { name, low_confidence }
                && (Parsed { name, low_confidence }).model() == m,
            None => r == FileParse::Unparseable,
        },
    }
}

pub fn parse_for_scan(ov: Option<ParseOverride>, stem: &str, dirs: &[String]) -> (r: FileParse)
    ensures
        file_parse_spec(ov, stem@, dir_texts(dirs@), r),
{
    match ov {
        Some(o) => {
            if crate::text::eq_str(crate::text::chars_of(o.kind.as_str()).as_slice(), "ignore") {
                return FileParse::Ignored;
            }
            let base = crate::parser::parse(stem, dirs);
            let (release_group, resolution, crc) = match base {
                Some(b) => (b.release_group, b.resolution, b.crc),
                None => (None, None, None),
            };
            FileParse::Parsed {
                name: ParsedName { title: o.title, season: o.season, episode: o.number, release_group, resolution, crc },
                low_confidence: false,
            }
        },
        None => match crate::parser::parse_with_confidence(stem, dirs) {
            Some(p) => FileParse::Parsed { name: p.name, low_confidence: p.low_confidence },
            None => FileParse::Unparseable,
        },
    }
}

/// What became of one file during a scan.
#[derive(Debug, Clone, Copy, PartialEq, Eq)]
pub enum FileOutcome {
    /// Its path is not valid text: an error, and the file is not seen.
    BadPath,
    /// An `ignore` override: seen, not stored.
    Ignored,
    /// Neither an override nor the parser could place it: an error, not seen.
    Unparseable,
    /// Stored as a new episode.
    Added,
    /// Stored over the episode already at that path.
    Updated,
    /// Placed, but storing it failed: an error. It still counts as seen, so its stored
    /// episode is not flagged missing.
    StoreFailed,
}

/// Whether a file with this outcome counts as seen when missing episodes are flagged.
pub open spec fn outcome_seen(o: FileOutcome) -> bool {
    !(o is BadPath || o is Unparseable)
}

pub open spec fn outcome_error(o: FileOutcome) -> bool {
    o is BadPath || o is Unparseable || o is StoreFailed
}

pub open spec fn one_if(b: bool) -> int {
    if b { 1 } else { 0 }
}

/// A root's record before its files are read: the walk's errors, plus one when the root
/// could not be read at all, in which case it drives no missing-detection.
pub fn root_scan_start(at: i64, walk_errors: usize, unreadable: bool) -> (r: RootScan)
    requires
        walk_errors < i64::MAX,
    ensures
        r == (RootScan { at, files_seen: 0, added: 0, updated: 0, missing: 0,
            errors: (walk_errors + one_if(unreadable)) as i64, readable: !unreadable }),
{
    let errors: i64 = if unreadable { walk_errors as i64 + 1 } else { walk_errors as i64 };
    RootScan { at, files_seen: 0, added: 0, updated: 0, missing: 0, errors, readable: !unreadable }
}

/// Count one file into its root's record and the scan's totals. Returns whether the file
/// counts as seen.
pub fn tally_file(scan: &mut RootScan, summary: &mut ScanSummary, o: FileOutcome) -> (seen: bool)
    requires
        old(scan).files_seen < i64::MAX,
        old(scan).added < i64::MAX,
        old(scan).updated < i64::MAX,
        old(scan).errors < i64::MAX,
        old(summary).files_seen < usize::MAX,
        old(summary).episodes_added < usize::MAX,
        old(summary).episodes_updated < usize::MAX,
    ensures
        seen == outcome_seen(o),
        *final(scan) == (RootScan {
            files_seen: (old(scan).files_seen + 1) as i64,
            added: (old(scan).added + one_if(o is Added)) as i64,
            updated: (old(scan).updated + one_if(o is Updated)) as i64,
            errors: (old(scan).errors + one_if(outcome_error(o))) as i64,
            ..*old(scan)
        }),
        final(summary).files_seen == old(summary).files_seen + 1,
        final(summary).episodes_added == old(summary).episodes_added + one_if(o is Added),
        final(summary).episodes_updated == old(summary).episodes_updated + one_if(o is Updated),
        final(summary).episodes_missing == old(summary).episodes_missing,
        final(summary).errors == old(summary).errors,
        final(summary).low_confidence_folders == old(summary).low_confidence_folders,
{
    scan.files_seen = scan.files_seen + 1;
    summary.files_seen = summary.files_seen + 1;
    match o {
        FileOutcome::Added => {
            scan.added = scan.added + 1;
            summary.episodes_added = summary.episodes_added + 1;
            true
        },
        FileOutcome::Updated => {
            scan.updated = scan.updated + 1;
            summary.episodes_updated = summary.episodes_updated + 1;
            true
        },
        FileOutcome::Ignored => true,
        FileOutcome::StoreFailed => {
            scan.errors = scan.errors + 1;
            true
        },
        FileOutcome::BadPath | FileOutcome::Unparseable => {
            scan.errors = scan.errors + 1;
            false
        },
    }
}

/// The indices, in order, of the roots whose unseen episodes are flagged missing: only the
/// roots that could be read.
pub open spec fn sweep_indices(scans: Seq<RootScan>) -> Seq<usize>
    decreases scans.len(),
{
    if scans.len() == 0 {
        Seq::empty()
    } else {
        let rest = sweep_indices(scans.drop_last());
        if scans.last().readable { rest.push((scans.len() - 1) as usize) } else { rest }
    }
}

proof fn lemma_sweep_bounds(scans: Seq<RootScan>)
    requires
        scans.len() <= usize::MAX,
    ensures
        forall|k: int| 0 <= k < sweep_indices(scans).len() ==> (#[trigger] sweep_indices(scans)[k]) < scans.len()
            && scans[sweep_indices(scans)[k] as int].readable,
    decreases scans.len(),
{
    if scans.len() > 0 {
        lemma_sweep_bounds(scans.drop_last());
        let rest = sweep_indices(scans.drop_last());
        assert forall|k: int| 0 <= k < sweep_indices(scans).len() implies (#[trigger] sweep_indices(scans)[k]) < scans.len()
            && scans[sweep_indices(scans)[k] as int].readable by {
            if k < rest.len() {
                assert(sweep_indices(scans)[k] == rest[k]);
                assert(scans.drop_last()[rest[k] as int] == scans[rest[k] as int]);
            } else {
                assert(scans.last().readable);
                assert(sweep_indices(scans) == rest.push((scans.len() - 1) as usize));
                assert(sweep_indices(scans)[k] == (scans.len() - 1) as usize);
                assert(scans[scans.len() - 1] == scans.last());
            }
        }
    }
}

/// An unreadable root is never swept: none of its episodes is flagged missing by the scan.
pub proof fn lemma_unreadable_root_untouched(scans: Seq<RootScan>, i: int)
    requires
        scans.len() <= usize::MAX,
        0 <= i < scans.len(),
        !scans[i].readable,
    ensures
        forall|k: int| 0 <= k < sweep_indices(scans).len() ==> #[trigger] sweep_indices(scans)[k] != i,
{
    lemma_sweep_bounds(scans);
}

/// The scan error recorded for a root that could not be read.
pub fn unreadable_root_note(path: &str) -> (r: String)
    ensures
        r@ == "root is unreadable, its episodes were left untouched: "@ + path@,
{
    let mut v = crate::text::chars_of("root is unreadable, its episodes were left untouched: ");
    crate::text::push_str(&mut v, path);
    crate::text::string_of(v.as_slice())
}

pub fn roots_to_sweep(scans: &[RootScan]) -> (r: Vec<usize>)
    ensures
        r@ == sweep_indices(scans@),
        forall|k: int| 0 <= k < r@.len() ==> r@[k] < scans@.len() && scans@[r@[k] as int].readable,
{
    let mut r: Vec<usize> = Vec::new();
    let mut i: usize = 0;
    while i < scans.len()
        invariant
            i <= scans@.len(),
            r@ == sweep_indices(scans@.subrange(0, i as int)),
            forall|k: int| 0 <= k < r@.len() ==> r@[k] < i && scans@[r@[k] as int].readable,
        decreases scans@.len() - i,
    {
        proof {
            let t = scans@.subrange(0, i + 1);
            assert(t.drop_last() =~= scans@.subrange(0, i as int));
            assert(t.last() == scans@[i as int]);
        }
        if scans[i].readable {
            r.push(i);
        }
        i = i + 1;
    }
    assert(scans@.subrange(0, scans@.len() as int) =~= scans@);
    r
}

/// Record how many episodes a readable root's sweep flagged missing.
pub fn note_missing(scan: &mut RootScan, summary: &mut ScanSummary, flagged: usize)
    requires
        old(scan).readable,
        flagged <= i64::MAX,
        old(summary).episodes_missing + flagged <= usize::MAX,
    ensures
        *final(scan) == (RootScan { missing: flagged as i64, ..*old(scan) }),
        final(summary).episodes_missing == old(summary).episodes_missing + flagged,
        final(summary).files_seen == old(summary).files_seen,
        final(summary).episodes_added == old(summary).episodes_added,
        final(summary).episodes_updated == old(summary).episodes_updated,
        final(summary).errors == old(summary).errors,
        final(summary).low_confidence_folders == old(summary).low_confidence_folders,
{
    scan.missing = flagged as i64;
    summary.episodes_missing = summary.episodes_missing + flagged;
}

} // verus!
