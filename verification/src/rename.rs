//! Canonical episode file names.
use vstd::prelude::*;
use crate::text::{trim, decimal2, chars_of, push_str, string_of};
use crate::models::{RenameEntry, ParseOverride};

verus! {

/// Characters that cannot stand in a file name on common filesystems.
pub open spec fn unsafe_name_char(c: char) -> bool {
    c == '/' || c == '\\' || c == ':' || c == '*' || c == '?' || c == '"' || c == '<' || c == '>' || c == '|'
}

pub open spec fn safe_title(t: Seq<char>) -> Seq<char> {
    trim(Seq::new(t.len(), |i: int| if unsafe_name_char(t[i]) { '-' } else { t[i] }))
}

/// `<title> - SxxEyy[.ext]` with unsafe characters of the title replaced by `-`.
pub open spec fn canonical_name_spec(title: Seq<char>, season: nat, episode: nat, ext: Seq<char>) -> Seq<char> {
    let base = safe_title(title) + " - S"@ + decimal2(season) + "E"@ + decimal2(episode);
    if ext.len() == 0 { base } else { base + "."@ + ext }
}

pub fn canonical_name(display_title: &str, season: u32, episode: u32, ext: &str) -> (r: String)
    ensures
        r@ == canonical_name_spec(display_title@, season as nat, episode as nat, ext@),
{
    let t = crate::text::chars_of(display_title);
    let ghost mapped = Seq::new(t@.len(), |i: int| if unsafe_name_char(t@[i]) { '-' } else { t@[i] });
    let mut safe: Vec<char> = Vec::new();
    let mut i: usize = 0;
    while i < t.len()
        invariant
            i <= t@.len(),
            mapped == Seq::new(t@.len(), |i: int| if unsafe_name_char(t@[i]) { '-' } else { t@[i] }),
            safe@ == mapped.subrange(0, i as int),
        decreases t@.len() - i,
    {
        let c = t[i];
        if c == '/' || c == '\\' || c == ':' || c == '*' || c == '?' || c == '"' || c == '<' || c == '>' || c == '|' {
            safe.push('-');
        } else {
            safe.push(c);
        }
        assert(mapped.subrange(0, i + 1) =~= mapped.subrange(0, i as int).push(safe@[i as int]));
        i = i + 1;
    }
    assert(mapped.subrange(0, t@.len() as int) =~= mapped);
    let mut v = crate::text::trim_chars(safe.as_slice());
    crate::text::push_str(&mut v, " - S");
    crate::text::push_u64_2(&mut v, season as u64);
    crate::text::push_str(&mut v, "E");
    crate::text::push_u64_2(&mut v, episode as u64);
    if !ext.is_empty() {
        crate::text::push_str(&mut v, ".");
        crate::text::push_str(&mut v, ext);
    }
    assert(v@ =~= canonical_name_spec(display_title@, season as nat, episode as nat, ext@));
    crate::text::string_of(v.as_slice())
}

/// Where an episode file would go: its canonical name (keeping its extension) in the same
/// folder; `None` when it is there already.
pub open spec fn planned_path_spec(old_path: Seq<char>, title: Seq<char>, season: u32, number: u32) -> Option<Seq<char>> {
    let ext = match crate::paths::extension_of(old_path) { Some(e) => e, None => Seq::<char>::empty() };
    let new_path = crate::paths::with_file_name_of(old_path, canonical_name_spec(title, season as nat, number as nat, ext));
    if crate::paths::same_path_of(new_path, old_path) { None } else { Some(new_path) }
}

pub fn planned_path(old_path: &str, title: &str, season: u32, number: u32) -> (r: Option<String>)
    ensures
        crate::parser::opt_str(r) == planned_path_spec(old_path@, title@, season, number),
{
    let ext = match crate::paths::extension(old_path) {
        Some(e) => e,
        None => String::new(),
    };
    let name = canonical_name(title, season, number, ext.as_str());
    let new_path = crate::paths::with_file_name(old_path, name.as_str());
    if crate::paths::same_path(new_path.as_str(), old_path) {
        None
    } else {
        Some(new_path)
    }
}

pub open spec fn conflict_text(missing: bool, target_exists: bool, new_path: Seq<char>) -> Option<Seq<char>> {
    if missing {
        Some("file is missing"@)
    } else if target_exists {
        Some("target exists: "@ + new_path)
    } else {
        None
    }
}

/// A plan entry: a missing file, or a target name already taken on disk, is a conflict
/// (shown, then skipped by `apply`).
pub fn rename_entry(episode_id: i64, old_path: &str, new_path: &str, missing: bool, target_exists: bool) -> (r: RenameEntry)
    ensures
        r.episode_id == episode_id,
        r.old_path@ == old_path@,
        r.new_path@ == new_path@,
        crate::parser::opt_str(r.conflict) == conflict_text(missing, target_exists, new_path@),
{
    let conflict = if missing {
        Some(string_of(chars_of("file is missing").as_slice()))
    } else if target_exists {
        let mut v = chars_of("target exists: ");
        push_str(&mut v, new_path);
        Some(string_of(v.as_slice()))
    } else {
        None
    };
    RenameEntry {
        episode_id,
        old_path: string_of(chars_of(old_path).as_slice()),
        new_path: string_of(chars_of(new_path).as_slice()),
        conflict,
    }
}

/// Whether entry `i` targets a path an earlier conflict-free entry already claims.
pub open spec fn duplicate_at(es: Seq<RenameEntry>, i: int) -> bool {
    es[i].conflict is None && exists|j: int| 0 <= j < i && (#[trigger] es[j]).conflict is None && es[j].new_path@ == es[i].new_path@
}

pub open spec fn claimed(es: Seq<RenameEntry>, i: int, p: Seq<char>) -> bool {
    exists|j: int| 0 <= j < i && (#[trigger] es[j]).conflict is None && es[j].new_path@ == p
}

pub open spec fn in_seen(seen: Seq<String>, p: Seq<char>) -> bool {
    exists|m: int| 0 <= m < seen.len() && (#[trigger] seen[m])@ == p
}

/// Flag every conflict-free entry whose target an earlier conflict-free entry of the same
/// plan already claims: the first claim keeps the name, the others are conflicts.
pub fn flag_duplicates(entries: Vec<RenameEntry>) -> (r: Vec<RenameEntry>)
    ensures
        r@.len() == entries@.len(),
        forall|i: int| 0 <= i < r@.len() ==> {
            let (a, b) = (#[trigger] r@[i], entries@[i]);
            &&& a.episode_id == b.episode_id
            &&& a.old_path == b.old_path
            &&& a.new_path == b.new_path
            &&& if duplicate_at(entries@, i) {
                crate::parser::opt_str(a.conflict) == Some("duplicate target within plan"@)
            } else {
                a.conflict == b.conflict
            }
        },
{
    let ghost input = entries@;
    let mut seen: Vec<String> = Vec::new();
    let mut out: Vec<RenameEntry> = Vec::new();
    let mut rest = entries;
    let n = rest.len();
    let mut i: usize = 0;
    assert(input.skip(0) =~= input);
    while i < n
        invariant
            n == input.len(),
            i <= n,
            rest@ == input.skip(i as int),
            out@.len() == i,
            forall|k: int| 0 <= k < i ==> {
                let (a, b) = (#[trigger] out@[k], input[k]);
                &&& a.episode_id == b.episode_id
                &&& a.old_path == b.old_path
                &&& a.new_path == b.new_path
                &&& if duplicate_at(input, k) {
                    crate::parser::opt_str(a.conflict) == Some("duplicate target within plan"@)
                } else {
                    a.conflict == b.conflict
                }
            },
            forall|p: Seq<char>| #[trigger] in_seen(seen@, p) == claimed(input, i as int, p),
        decreases n - i,
    {
        let e = rest.remove(0);
        assert(e == input[i as int]);
        assert(rest@ =~= input.skip(i + 1));
        let ghost p = e.new_path@;
        let ghost seen0 = seen@;
        let ghost mut pushed = false;
        if e.conflict.is_none() {
            let mut m: usize = 0;
            let mut found = false;
            while m < seen.len() && !found
                invariant
                    m <= seen@.len(),
                    p == e.new_path@,
                    found ==> exists|x: int| 0 <= x < seen@.len() && (#[trigger] seen@[x])@ == p,
                    !found ==> forall|x: int| 0 <= x < m ==> (#[trigger] seen@[x])@ != p,
                decreases seen@.len() - m + (if found { 0int } else { 1int }),
            {
                if crate::text::eq_str(chars_of(seen[m].as_str()).as_slice(), e.new_path.as_str()) {
                    found = true;
                    assert(seen@[m as int]@ == p);
                } else {
                    m = m + 1;
                }
            }
            assert(in_seen(seen@, p) == claimed(input, i as int, p));
            assert(found <==> in_seen(seen@, p));
            assert(found <==> duplicate_at(input, i as int));
            if found {
                out.push(RenameEntry {
                    episode_id: e.episode_id,
                    old_path: e.old_path,
                    new_path: e.new_path,
                    conflict: Some(string_of(chars_of("duplicate target within plan").as_slice())),
                });
            } else {
                seen.push(e.new_path.clone());
                proof { pushed = true; }
                out.push(e);
            }
        } else {
            out.push(e);
        }
        proof {
            if pushed {
                assert(seen@ =~= seen0.push(seen@[seen@.len() - 1]));
                assert(seen@[seen@.len() - 1]@ == p);
            } else {
                assert(seen@ =~= seen0);
            }
            assert forall|q: Seq<char>| #[trigger] in_seen(seen@, q) == claimed(input, i + 1, q) by {
                assert(in_seen(seen0, q) == claimed(input, i as int, q));
                if claimed(input, i + 1, q) {
                    let j = choose|j: int| 0 <= j < i + 1 && (#[trigger] input[j]).conflict is None && input[j].new_path@ == q;
                    if j < i {
                        assert(claimed(input, i as int, q));
                        let m = choose|m: int| 0 <= m < seen0.len() && (#[trigger] seen0[m])@ == q;
                        assert(seen@[m]@ == q);
                    } else if !pushed {
                        assert(claimed(input, i as int, q));
                        let m = choose|m: int| 0 <= m < seen0.len() && (#[trigger] seen0[m])@ == q;
                        assert(seen@[m]@ == q);
                    } else {
                        assert(seen@[seen@.len() - 1]@ == q);
                    }
                }
                if in_seen(seen@, q) {
                    let m = choose|m: int| 0 <= m < seen@.len() && (#[trigger] seen@[m])@ == q;
                    if m < seen0.len() {
                        assert(seen0[m]@ == q);
                        assert(in_seen(seen0, q));
                        let j = choose|j: int| 0 <= j < i && (#[trigger] input[j]).conflict is None && input[j].new_path@ == q;
                        assert(claimed(input, i + 1, q));
                    } else {
                        assert(input[i as int].new_path@ == q);
                        assert(claimed(input, i + 1, q));
                    }
                }
            }
        }
        i = i + 1;
    }
    out
}

/// The override that pins a renamed file to the show it is already in, so the next scan
/// (which would parse the canonical name into a different title) cannot split the show.
pub fn pin_override(new_path: &str, parsed_title: &str, season: u32, number: u32) -> (r: ParseOverride)
    ensures
        r.path@ == new_path@,
        r.title@ == parsed_title@,
        r.season == season,
        r.number == number,
        r.kind@ == (if season == 0 { "special"@ } else { "episode"@ }),
        r.source@ == "rename"@,
{
    ParseOverride {
        path: string_of(chars_of(new_path).as_slice()),
        title: string_of(chars_of(parsed_title).as_slice()),
        season,
        number,
        kind: string_of(chars_of(if season == 0 { "special" } else { "episode" }).as_slice()),
        source: string_of(chars_of("rename").as_slice()),
    }
}

/// `<path>: <reason>`, how a skipped file is reported.
pub fn skip_note(path: &str, reason: &str) -> (r: String)
    ensures
        r@ == path@ + ": "@ + reason@,
{
    let mut v = chars_of(path);
    push_str(&mut v, ": ");
    push_str(&mut v, reason);
    string_of(v.as_slice())
}

/// What undo does with one logged rename, from whether the old and the new name
/// are on disk.
#[derive(Debug, Clone, Copy, PartialEq, Eq)]
pub enum UndoStep {
    /// Already back where it belongs: retire the log entry.
    Retire,
    /// A different file took the old name (a re-download): refuse rather than overwrite.
    Occupied,
    /// The renamed file is gone: leave the entry for a later undo.
    Gone,
    /// Move the file back.
    MoveBack,
}

pub fn undo_step(old_here: bool, new_here: bool) -> (r: UndoStep)
    ensures
        r == (if old_here && !new_here { UndoStep::Retire } else if old_here { UndoStep::Occupied }
            else if !new_here { UndoStep::Gone } else { UndoStep::MoveBack }),
{
    if old_here && !new_here {
        UndoStep::Retire
    } else if old_here {
        UndoStep::Occupied
    } else if !new_here {
        UndoStep::Gone
    } else {
        UndoStep::MoveBack
    }
}

/// The note an undo step leaves for the user: a refusal when another file holds the old
/// name, the renamed file gone; nothing when the entry is retired or moved back.
pub fn undo_note(step: UndoStep, old_path: &str, new_path: &str) -> (r: Option<String>)
    ensures
        r matches Some(n) ==> (step == UndoStep::Occupied && n@ == old_path@ + ": "@ + "a different file already occupies the original name"@)
            || (step == UndoStep::Gone && n@ == new_path@ + ": "@ + "file no longer exists"@),
        (step == UndoStep::Occupied || step == UndoStep::Gone) <==> r is Some,
{
    match step {
        UndoStep::Occupied => Some(skip_note(old_path, "a different file already occupies the original name")),
        UndoStep::Gone => Some(skip_note(new_path, "file no longer exists")),
        UndoStep::Retire => None,
        UndoStep::MoveBack => None,
    }
}

/// The note for a rename whose bookkeeping failed: the file was moved back, or could not be.
pub fn rollback_note(old_path: &str, err: &str, rolled_back: bool) -> (r: String)
    ensures
        r@ == old_path@ + ": "@ + err@ + (if rolled_back { " (rolled back)"@ } else {
            " (COULD NOT ROLL BACK, file is at the new name)"@ }),
{
    let mut v = chars_of(old_path);
    push_str(&mut v, ": ");
    push_str(&mut v, err);
    if rolled_back {
        push_str(&mut v, " (rolled back)");
    } else {
        push_str(&mut v, " (COULD NOT ROLL BACK, file is at the new name)");
    }
    string_of(v.as_slice())
}

} // verus!
