//! The optional language-model second opinion on a folder's files: the settings it runs
//! with, the question it is asked, how its reply is read and applied, and the queue of
//! folders that wait for it. The HTTP exchange itself lives outside the library.
use vstd::prelude::*;
use std::collections::VecDeque;
use crate::error::AppError;
use crate::models::AssistProgress;
use crate::models::Root;
use crate::text::{blank, is_blank, chars_of, string_of, trim_end_by, trim_end_char, is_char, parse_u64,
    parse_unsigned, trim, trim_chars, trim_start_by, trim_start_char, is_prefix, is_suffix, starts_with,
    ends_with, slice_chars, push_str, push_all, push_u64, decimal, first_index_of, last_index_of, find_char,
    rfind_char, eq_str};

verus! {

pub const DEFAULT_BASE_URL: &'static str = "https://opencode.ai/zen/v1";
pub const DEFAULT_MODEL: &'static str = "big-pickle";
pub const MAX_FILES_PER_FOLDER: usize = 200;
/// Attempts per request; waits grow as retry_base * 2^n and honour Retry-After.
pub const MAX_ATTEMPTS: u32 = 6;
/// Default pause between folders so free-tier rate limits are not hammered.
pub const DEFAULT_DELAY_MS: u64 = 500;

/// What the model is told it is and how it must answer.
pub const SYSTEM_PROMPT: &'static str = "You are a meticulous anime media librarian. You receive one folder of video files from a fansub/BD release plus a regex parser's current guess for each file. \
Decide the anime title (romaji as listed on AniList, no release-group tags, no quality tags), the season number, and for every file its kind and numbering. \
kind is one of: \"episode\" (a numbered TV episode), \"special\" (OVA/OAD/NCOP/NCED/OP/ED/PV/CM/menu/recap/extra; these go to season 0), \"movie\" (a film or one-shot; season 1, episode 1 unless numbered), \"ignore\" (samples, trailers for other works, junk). \
If a file belongs to a different anime than the folder (e.g. a bundled spin-off), set its own \"title\". \
Respond with JSON only, no prose, exactly this shape: \
{\"title\": string, \"season\": integer|null, \"files\": [{\"name\": string, \"kind\": \"episode\"|\"special\"|\"movie\"|\"ignore\", \"season\": integer, \"episode\": integer, \"title\": string|null}], \"notes\": string}. \
\"name\" must be copied verbatim from the input. Keep episode numbers as printed in the file name (do not renumber to absolute).";

/// The source recorded on the overrides the model's verdicts create.
pub const OVERRIDE_SOURCE: &'static str = "llm";

/// The error of a request made without an API key.
pub fn not_configured() -> (r: AppError)
    ensures
        r matches AppError::Network(m) && m@ == "LLM not configured: set an OpenCode Zen API key in Settings"@,
{
    AppError::Network(string_of(chars_of("LLM not configured: set an OpenCode Zen API key in Settings").as_slice()))
}

/// What the connection test reports: the model and its trimmed reply.
pub fn test_reply(model: &str, reply: &str) -> (r: String)
    ensures
        r@ == model@ + " replied: "@ + trim(reply@),
{
    let mut v = chars_of(model);
    push_str(&mut v, " replied: ");
    let t = trim_chars(chars_of(reply).as_slice());
    push_all(&mut v, t.as_slice());
    string_of(v.as_slice())
}

/// One file of a folder as the model is shown it: its name and the parser's guess.
#[derive(Debug, Clone, PartialEq)]
pub struct FileGuess {
    pub name: String,
    pub guess: String,
}

/// The model's verdict on one file.
#[derive(Debug, Clone, PartialEq)]
pub struct FileDecision {
    pub name: String,
    pub kind: String,
    pub season: Option<u32>,
    pub episode: Option<u32>,
    pub title: Option<String>,
}

/// The model's verdict on a whole folder.
#[derive(Debug, Clone, PartialEq)]
pub struct FolderInspection {
    pub title: String,
    pub season: Option<u32>,
    pub files: Vec<FileDecision>,
    pub notes: String,
}

// ---------------------------------------------------------------------------
// Settings
// ---------------------------------------------------------------------------

/// Where the model is reached and how: the endpoint without trailing slashes, the API key
/// (absent when blank), the model name and the pause between folders.
pub struct LlmSettings {
    pub base_url: String,
    pub api_key: Option<String>,
    pub model: String,
    pub delay_ms: u64,
}

/// A key that is present and not blank.
pub open spec fn usable_key(k: Option<String>) -> Option<String> {
    match k {
        Some(s) => if blank(s@) { None } else { Some(s) },
        None => None,
    }
}

/// A stored setting, or `default` when it is absent or blank.
pub open spec fn setting_or(v: Option<String>, default: Seq<char>) -> Seq<char> {
    match v {
        Some(s) => if blank(s@) { default } else { s@ },
        None => default,
    }
}

fn setting_or_default(v: Option<String>, default: &str) -> (r: String)
    ensures
        r@ == setting_or(v, default@),
{
    match v {
        Some(s) => {
            if is_blank(s.as_str()) {
                string_of(chars_of(default).as_slice())
            } else {
                s
            }
        },
        None => string_of(chars_of(default).as_slice()),
    }
}

impl LlmSettings {
    pub fn with(base_url: &str, api_key: Option<String>, model: String) -> (r: Self)
        ensures
            r.base_url@ == trim_end_by(base_url@, is_char('/')),
            r.api_key == usable_key(api_key),
            r.model == model,
            r.delay_ms == DEFAULT_DELAY_MS,
    {
        let b = trim_end_char(chars_of(base_url).as_slice(), '/');
        let key = match api_key {
            Some(k) => if is_blank(k.as_str()) { None } else { Some(k) },
            None => None,
        };
        LlmSettings { base_url: string_of(b.as_slice()), api_key: key, model, delay_ms: DEFAULT_DELAY_MS }
    }

    /// Built from the stored settings `llm_api_key`, `llm_model`, `llm_base_url` and
    /// `llm_delay_ms`: blank model and endpoint fall back to the defaults, an unreadable
    /// delay to the default pause.
    pub fn from_settings(key: Option<String>, model: Option<String>, base: Option<String>, delay: Option<String>) -> (r: Self)
        ensures
            r.api_key == usable_key(key),
            r.model@ == setting_or(model, DEFAULT_MODEL@),
            r.base_url@ == trim_end_by(setting_or(base, DEFAULT_BASE_URL@), is_char('/')),
            r.delay_ms == (match delay {
                Some(d) => match parse_unsigned(d@, u64::MAX as nat) {
                    Some(v) => v,
                    None => DEFAULT_DELAY_MS as nat,
                },
                None => DEFAULT_DELAY_MS as nat,
            }),
    {
        let m = setting_or_default(model, DEFAULT_MODEL);
        let b = setting_or_default(base, DEFAULT_BASE_URL);
        let mut s = Self::with(b.as_str(), key, m);
        let d = match delay {
            Some(d) => match parse_u64(chars_of(d.as_str()).as_slice()) {
                Some(v) => v,
                None => DEFAULT_DELAY_MS,
            },
            None => DEFAULT_DELAY_MS,
        };
        s.delay_ms = d;
        s
    }

    /// Whether an API key is set.
    pub fn configured(&self) -> (r: bool)
        ensures
            r == self.api_key is Some,
    {
        self.api_key.is_some()
    }
}

// ---------------------------------------------------------------------------
// The question
// ---------------------------------------------------------------------------

/// One line pair per file: `- <name>` and its parser guess.
pub open spec fn file_lines(fs: Seq<FileGuess>) -> Seq<char>
    decreases fs.len(),
{
    if fs.len() == 0 {
        Seq::<char>::empty()
    } else {
        file_lines(fs.drop_last()) + "- "@ + fs.last().name@ + "\n    parser guess: "@ + fs.last().guess@ + "\n"@
    }
}

/// The question about one folder: its path relative to the library root, the file count,
/// the first `MAX_FILES_PER_FOLDER` files with their guesses, and a note of how many more
/// were left out.
pub open spec fn prompt_text(rel: Seq<char>, fs: Seq<FileGuess>) -> Seq<char> {
    let shown = if fs.len() > MAX_FILES_PER_FOLDER { MAX_FILES_PER_FOLDER as int } else { fs.len() as int };
    "Folder (relative to the library root): "@ + rel + "\n\nFiles ("@ + decimal(fs.len()) + "):\n"@
        + file_lines(fs.take(shown))
        + (if fs.len() > MAX_FILES_PER_FOLDER {
            "... and "@ + decimal((fs.len() - MAX_FILES_PER_FOLDER) as nat)
                + " more files not shown; decide them by the same pattern.\n"@
        } else {
            Seq::<char>::empty()
        })
}

pub fn inspection_prompt(rel_folder: &str, files: &[FileGuess]) -> (r: String)
    ensures
        r@ == prompt_text(rel_folder@, files@),
{
    let mut out: Vec<char> = Vec::new();
    push_str(&mut out, "Folder (relative to the library root): ");
    push_str(&mut out, rel_folder);
    push_str(&mut out, "\n\nFiles (");
    push_u64(&mut out, files.len() as u64);
    push_str(&mut out, "):\n");
    let ghost head = out@;
    let shown: usize = if files.len() > MAX_FILES_PER_FOLDER { MAX_FILES_PER_FOLDER } else { files.len() };
    let mut i: usize = 0;
    while i < shown
        invariant
            shown <= files@.len(),
            i <= shown,
            out@ == head + file_lines(files@.take(i as int)),
        decreases shown - i,
    {
        let f = &files[i];
        push_str(&mut out, "- ");
        push_str(&mut out, f.name.as_str());
        push_str(&mut out, "\n    parser guess: ");
        push_str(&mut out, f.guess.as_str());
        push_str(&mut out, "\n");
        assert(files@.take(i + 1).drop_last() =~= files@.take(i as int));
        i = i + 1;
    }
    let ghost body = out@;
    if files.len() > MAX_FILES_PER_FOLDER {
        push_str(&mut out, "... and ");
        push_u64(&mut out, (files.len() - MAX_FILES_PER_FOLDER) as u64);
        push_str(&mut out, " more files not shown; decide them by the same pattern.\n");
    }
    assert(out@ =~= prompt_text(rel_folder@, files@));
    string_of(out.as_slice())
}

// ---------------------------------------------------------------------------
// The reply
// ---------------------------------------------------------------------------

/// The reply trimmed, with a leading ```json or ``` fence and a trailing ``` fence
/// removed, trimmed again.
pub open spec fn unfenced(reply: Seq<char>) -> Seq<char> {
    let t = trim(reply);
    let t1 = if is_prefix("```json"@, t) {
        t.subrange("```json"@.len() as int, t.len() as int)
    } else if is_prefix("```"@, t) {
        t.subrange("```"@.len() as int, t.len() as int)
    } else {
        t
    };
    let t2 = if is_suffix("```"@, t1) {
        t1.subrange(0, t1.len() - "```"@.len())
    } else {
        t1
    };
    trim(t2)
}

/// From the first `{` through the last `}`, when both exist in that order.
pub open spec fn json_object(t: Seq<char>) -> Option<Seq<char>> {
    match (first_index_of(t, '{'), last_index_of(t, '}')) {
        (Some(a), Some(b)) => if b < a { None } else { Some(t.subrange(a, b + 1)) },
        _ => None,
    }
}

pub open spec fn parse_error<T>(r: Result<T, AppError>, msg: Seq<char>) -> bool {
    r matches Err(AppError::Parse(m)) && m@ == msg
}

/// The JSON object in a model reply, tolerating ```json fences and prose around it.
/// Its decoding into a `FolderInspection` is left to the caller.
pub fn inspection_json(reply: &str) -> (r: Result<String, AppError>)
    ensures
        match json_object(unfenced(reply@)) {
            Some(j) => r matches Ok(s) && s@ == j,
            None => parse_error(r, "LLM reply contained no JSON object"@),
        },
{
    let t = trim_chars(chars_of(reply).as_slice());
    let fj = chars_of("```json");
    let f = chars_of("```");
    let t1 = if starts_with(t.as_slice(), fj.as_slice()) {
        slice_chars(t.as_slice(), fj.len(), t.len())
    } else if starts_with(t.as_slice(), f.as_slice()) {
        slice_chars(t.as_slice(), f.len(), t.len())
    } else {
        t
    };
    let t2 = if ends_with(t1.as_slice(), f.as_slice()) {
        slice_chars(t1.as_slice(), 0, t1.len() - f.len())
    } else {
        t1
    };
    let t3 = trim_chars(t2.as_slice());
    assert(t3@ == unfenced(reply@));
    let a = find_char(t3.as_slice(), '{');
    let b = rfind_char(t3.as_slice(), '}');
    match (a, b) {
        (Some(a), Some(b)) => {
            assert(b < t3.len());
            if b < a {
                Err(AppError::Parse(string_of(chars_of("LLM reply contained no JSON object").as_slice())))
            } else {
                Ok(string_of(slice_chars(t3.as_slice(), a, b + 1).as_slice()))
            }
        },
        _ => Err(AppError::Parse(string_of(chars_of("LLM reply contained no JSON object").as_slice()))),
    }
}

/// A decoded inspection is accepted only with a title that is not blank.
pub fn check_inspection(v: FolderInspection) -> (r: Result<FolderInspection, AppError>)
    ensures
        blank(v.title@) ==> parse_error(r, "LLM reply had an empty title"@),
        !blank(v.title@) ==> r == Ok::<FolderInspection, AppError>(v),
{
    if is_blank(v.title.as_str()) {
        Err(AppError::Parse(string_of(chars_of("LLM reply had an empty title").as_slice())))
    } else {
        Ok(v)
    }
}

// ---------------------------------------------------------------------------
// Applying a verdict
// ---------------------------------------------------------------------------

/// `<title> S<season>E<number>`, how a file's placement is shown in a report.
pub open spec fn label_text(title: Seq<char>, season: nat, number: nat) -> Seq<char> {
    title + " S"@ + decimal(season) + "E"@ + decimal(number)
}

pub fn episode_label(title: &str, season: u32, number: u32) -> (r: String)
    ensures
        r@ == label_text(title@, season as nat, number as nat),
{
    let mut out = chars_of(title);
    push_str(&mut out, " S");
    push_u64(&mut out, season as u64);
    push_str(&mut out, "E");
    push_u64(&mut out, number as u64);
    string_of(out.as_slice())
}

/// What to do with one file after the model's verdict.
#[derive(Debug, Clone, PartialEq)]
pub enum FileAction {
    /// Record an ignore override and drop the file's episode row.
    Ignore,
    /// Record an override and move the file to this placement.
    Assign { kind: String, title: String, season: u32, number: u32 },
}

/// The kind a verdict is applied as: a known kind as given, anything else an episode.
pub open spec fn applied_kind(k: Seq<char>) -> Seq<char> {
    if k == "special"@ || k == "movie"@ || k == "episode"@ {
        k
    } else {
        "episode"@
    }
}

/// The file's own title when it has one that is not blank, else the folder's; trimmed.
pub open spec fn applied_title(own: Option<String>, folder_title: Seq<char>) -> Seq<char> {
    trim(match own {
        Some(t) => if blank(t@) { folder_title } else { t@ },
        None => folder_title,
    })
}

/// Specials go to season 0; otherwise the file's season, else the folder's, else 1.
pub open spec fn applied_season(kind: Seq<char>, own: Option<u32>, folder_season: Option<u32>) -> u32 {
    if kind == "special"@ {
        0
    } else {
        match own {
            Some(s) => s,
            None => match folder_season {
                Some(s) => s,
                None => 1,
            },
        }
    }
}

/// The file's episode number, else 1 for a movie, else the number it already has.
pub open spec fn applied_number(kind: Seq<char>, own: Option<u32>, current: u32) -> u32 {
    match own {
        Some(n) => n,
        None => if kind == "movie"@ { 1 } else { current },
    }
}

/// Where a verdict places a file: a special goes to season 0; any other verdict to the
/// season the file's own verdict names, the folder's season only when the file names none,
/// and season 1 when neither does. The episode number is the verdict's own when it names
/// one.
pub proof fn lemma_verdict_placement(kind: Seq<char>, own: Option<u32>, folder_season: Option<u32>,
    own_number: Option<u32>, current: u32)
    ensures
        kind == "special"@ ==> applied_season(applied_kind(kind), own, folder_season) == 0,
        kind != "special"@ && own is Some ==> applied_season(applied_kind(kind), own, folder_season) == own->0,
        kind != "special"@ && own is None && folder_season is Some
            ==> applied_season(applied_kind(kind), own, folder_season) == folder_season->0,
        kind != "special"@ && own is None && folder_season is None
            ==> applied_season(applied_kind(kind), own, folder_season) == 1,
        own_number is Some ==> applied_number(applied_kind(kind), own_number, current) == own_number->0,
        own_number is None && kind == "movie"@ ==> applied_number(applied_kind(kind), own_number, current) == 1,
        own_number is None && kind != "movie"@ ==> applied_number(applied_kind(kind), own_number, current) == current,
        kind == "special"@ || kind == "movie"@ || kind == "episode"@ ==> applied_kind(kind) == kind,
        !(kind == "special"@ || kind == "movie"@ || kind == "episode"@) ==> applied_kind(kind) == "episode"@,
{
    reveal_strlit("special");
    reveal_strlit("movie");
    reveal_strlit("episode");
    assert("special"@ != "episode"@) by { assert("special"@[0] != "episode"@[0]); }
    assert("movie"@ != "episode"@) by { assert("movie"@[0] != "episode"@[0]); }
    assert("movie"@ != "special"@) by { assert("movie"@[0] != "special"@[0]); }
}

/// The title a verdict assigns: the file's own title when it names a non-blank one, else the
/// folder's, with White_Space trimmed from the ends.
pub proof fn lemma_verdict_title(own: Option<String>, folder_title: Seq<char>)
    ensures
        own is Some && !blank(own->0@) ==> applied_title(own, folder_title) == trim(own->0@),
        !(own is Some && !blank(own->0@)) ==> applied_title(own, folder_title) == trim(folder_title),
{
}

pub fn resolve_decision(d: &FileDecision, folder_title: &str, folder_season: Option<u32>, current_number: u32) -> (r: FileAction)
    ensures
        d.kind@ == "ignore"@ ==> r == FileAction::Ignore,
        d.kind@ != "ignore"@ ==> (r matches FileAction::Assign { kind, title, season, number }
            && kind@ == applied_kind(d.kind@)
            && title@ == applied_title(d.title, folder_title@)
            && season == applied_season(applied_kind(d.kind@), d.season, folder_season)
            && number == applied_number(applied_kind(d.kind@), d.episode, current_number)),
{
    let k = chars_of(d.kind.as_str());
    proof {
        reveal_strlit("special");
        reveal_strlit("movie");
        reveal_strlit("episode");
        assert("special"@[0] != "episode"@[0]);
        assert("special"@[0] != "movie"@[0]);
        assert("movie"@[0] != "episode"@[0]);
    }
    if eq_str(k.as_slice(), "ignore") {
        return FileAction::Ignore;
    }
    let is_special = eq_str(k.as_slice(), "special");
    let is_movie = eq_str(k.as_slice(), "movie");
    let kind = if is_special || is_movie || eq_str(k.as_slice(), "episode") {
        string_of(k.as_slice())
    } else {
        string_of(chars_of("episode").as_slice())
    };
    let raw = match &d.title {
        Some(t) => if is_blank(t.as_str()) { chars_of(folder_title) } else { chars_of(t.as_str()) },
        None => chars_of(folder_title),
    };
    let title = string_of(trim_chars(raw.as_slice()).as_slice());
    let season: u32 = if is_special {
        0
    } else {
        match d.season {
            Some(s) => s,
            None => match folder_season {
                Some(s) => s,
                None => 1,
            },
        }
    };
    let number: u32 = match d.episode {
        Some(n) => n,
        None => if is_movie { 1 } else { current_number },
    };
    FileAction::Assign { kind, title, season, number }
}

// ---------------------------------------------------------------------------
// Folders relative to the library roots
// ---------------------------------------------------------------------------

/// Length of the longest library root (trailing slashes removed) that `folder` starts
/// with, if any does.
pub open spec fn root_prefix_len(roots: Seq<Root>, folder: Seq<char>) -> Option<nat>
    decreases roots.len(),
{
    if roots.len() == 0 {
        None
    } else {
        let rest = root_prefix_len(roots.drop_last(), folder);
        let c = trim_end_by(roots.last().path@, is_char('/'));
        if is_prefix(c, folder) {
            match rest {
                Some(l) => if l >= c.len() { Some(l) } else { Some(c.len()) },
                None => Some(c.len()),
            }
        } else {
            rest
        }
    }
}

/// The folder as the model is shown it: relative to the longest library root it lies
/// under, without leading slashes; unchanged when it lies under none.
pub open spec fn relative_folder(roots: Seq<Root>, folder: Seq<char>) -> Seq<char> {
    match root_prefix_len(roots, folder) {
        Some(l) => trim_start_by(folder.subrange(l as int, folder.len() as int), is_char('/')),
        None => folder,
    }
}

pub fn relative_to_roots(roots: &[Root], folder: &str) -> (r: String)
    ensures
        r@ == relative_folder(roots@, folder@),
{
    let f = chars_of(folder);
    let mut best: Option<usize> = None;
    let mut i: usize = 0;
    while i < roots.len()
        invariant
            i <= roots@.len(),
            f@ == folder@,
            match best {
                Some(l) => root_prefix_len(roots@.take(i as int), folder@) == Some(l as nat),
                None => root_prefix_len(roots@.take(i as int), folder@) is None,
            },
            best matches Some(l) ==> l <= f@.len(),
        decreases roots@.len() - i,
    {
        let c = trim_end_char(chars_of(roots[i].path.as_str()).as_slice(), '/');
        assert(roots@.take(i + 1).drop_last() =~= roots@.take(i as int));
        assert(roots@.take(i + 1).last() == roots@[i as int]);
        if starts_with(f.as_slice(), c.as_slice()) {
            best = match best {
                Some(l) => if l >= c.len() { Some(l) } else { Some(c.len()) },
                None => Some(c.len()),
            };
        }
        i = i + 1;
    }
    assert(roots@.take(roots@.len() as int) =~= roots@);
    match best {
        Some(l) => {
            let rest = slice_chars(f.as_slice(), l, f.len());
            string_of(trim_start_char(rest.as_slice(), '/').as_slice())
        },
        None => string_of(f.as_slice()),
    }
}

// ---------------------------------------------------------------------------
// The work queue
// ---------------------------------------------------------------------------

/// Folders awaiting an opinion. Scans enqueue; one worker drains. Enqueuing while a worker
/// runs simply extends that run, so no folder is ever dropped.
pub struct AssistQueue {
    pending: VecDeque<String>,
    running: bool,
    done: usize,
    total: usize,
}

/// The queue after offering `fs` in order: each folder not already queued joins the back.
pub open spec fn enqueued(q: Seq<Seq<char>>, fs: Seq<Seq<char>>) -> Seq<Seq<char>>
    decreases fs.len(),
{
    if fs.len() == 0 {
        q
    } else {
        let before = enqueued(q, fs.drop_last());
        if before.contains(fs.last()) {
            before
        } else {
            before.push(fs.last())
        }
    }
}

/// `n` reduced into the range of `usize` the way a wrapping counter does.
pub open spec fn wrap_usize(n: int) -> int {
    if n > usize::MAX {
        n - (usize::MAX + 1)
    } else {
        n
    }
}

pub open spec fn names(v: Seq<String>) -> Seq<Seq<char>> {
    v.map_values(|s: String| s@)
}

impl AssistQueue {
    /// The queued folders, front first.
    pub closed spec fn queued(&self) -> Seq<Seq<char>> {
        names(self.pending@)
    }

    pub closed spec fn running_spec(&self) -> bool {
        self.running
    }

    pub closed spec fn done_spec(&self) -> nat {
        self.done as nat
    }

    pub closed spec fn total_spec(&self) -> nat {
        self.total as nat
    }

    /// No folder is queued twice.
    pub open spec fn wf(&self) -> bool {
        self.queued().no_duplicates()
    }

    pub fn new() -> (r: Self)
        ensures
            r.wf(),
            r.queued() == Seq::<Seq<char>>::empty(),
            !r.running_spec(),
            r.done_spec() == 0,
            r.total_spec() == 0,
    {
        let r = AssistQueue { pending: VecDeque::new(), running: false, done: 0, total: 0 };
        assert(r.queued() =~= Seq::<Seq<char>>::empty());
        r
    }

    /// Add folders not already queued. Returns how many were new; the total of the current
    /// run grows by as many (wrapping, as an atomic counter does).
    pub fn enqueue(&mut self, folders: Vec<String>) -> (r: usize)
        requires
            old(self).wf(),
        ensures
            final(self).wf(),
            final(self).queued() == enqueued(old(self).queued(), names(folders@)),
            r == final(self).queued().len() - old(self).queued().len(),
            final(self).total_spec() == wrap_usize(old(self).total_spec() + r),
            final(self).running_spec() == old(self).running_spec(),
            final(self).done_spec() == old(self).done_spec(),
    {
        let mut added: usize = 0;
        let mut i: usize = 0;
        let ghost q0 = self.queued();
        while i < folders.len()
            invariant
                i <= folders@.len(),
                self.queued() == enqueued(q0, names(folders@).take(i as int)),
                self.queued().no_duplicates(),
                self.queued().len() == q0.len() + added,
                added <= i,
                self.running == old(self).running,
                self.done == old(self).done,
                self.total == old(self).total,
            decreases folders@.len() - i,
        {
            let f = &folders[i];
            let ghost fs = names(folders@).take(i + 1);
            assert(fs.drop_last() =~= names(folders@).take(i as int));
            assert(fs.last() == f@);
            let mut found = false;
            let mut j: usize = 0;
            let n = self.pending.len();
            while j < n
                invariant
                    n == self.pending@.len(),
                    j <= n,
                    found ==> self.queued().contains(f@),
                    !found ==> forall|k: int| 0 <= k < j ==> self.queued()[k] != f@,
                decreases n - j,
            {
                if self.pending[j] == *f {
                    found = true;
                    assert(self.queued()[j as int] == f@);
                }
                j = j + 1;
            }
            if !found {
                let ghost before = self.queued();
                self.pending.push_back(f.clone());
                assert(self.queued() =~= before.push(f@));
                added = added + 1;
            }
            i = i + 1;
        }
        assert(names(folders@).take(folders@.len() as int) =~= names(folders@));
        self.total = self.total.wrapping_add(added);
        added
    }

    pub fn is_running(&self) -> (r: bool)
        ensures
            r == self.running_spec(),
    {
        self.running
    }

    /// The counters of the current run.
    pub fn progress(&self) -> (r: AssistProgress)
        ensures
            r.done == self.done_spec(),
            r.total == self.total_spec(),
            r.folder@ == Seq::<char>::empty(),
            r.running == self.running_spec(),
    {
        AssistProgress { done: self.done, total: self.total, folder: String::new(), running: self.running }
    }

    /// The front folder, removed from the queue.
    pub fn pop(&mut self) -> (r: Option<String>)
        requires
            old(self).wf(),
        ensures
            final(self).wf(),
            old(self).queued().len() == 0 ==> r is None && final(self).queued() == old(self).queued(),
            old(self).queued().len() > 0 ==> (r matches Some(f) && f@ == old(self).queued()[0]
                && final(self).queued() == old(self).queued().drop_first()),
            final(self).running_spec() == old(self).running_spec(),
            final(self).done_spec() == old(self).done_spec(),
            final(self).total_spec() == old(self).total_spec(),
    {
        let ghost q = self.queued();
        let r = self.pending.pop_front();
        proof {
            if q.len() > 0 {
                assert(self.queued() =~= q.drop_first());
            } else {
                assert(self.queued() =~= q);
            }
        }
        r
    }

    /// Try to become the worker: false when one is already draining the queue.
    pub fn try_start(&mut self) -> (r: bool)
        ensures
            r == !old(self).running_spec(),
            final(self).running_spec(),
            final(self).queued() == old(self).queued(),
            final(self).done_spec() == old(self).done_spec(),
            final(self).total_spec() == old(self).total_spec(),
    {
        if self.running {
            false
        } else {
            self.running = true;
            true
        }
    }

    /// Count one more folder done in the current run; returns the new count.
    pub fn record_done(&mut self) -> (r: usize)
        requires
            old(self).done_spec() < usize::MAX,
        ensures
            r == old(self).done_spec() + 1,
            final(self).done_spec() == r,
            final(self).queued() == old(self).queued(),
            final(self).running_spec() == old(self).running_spec(),
            final(self).total_spec() == old(self).total_spec(),
    {
        self.done = self.done + 1;
        self.done
    }

    /// End the run: counters cleared and the worker slot freed.
    pub fn finish(&mut self)
        ensures
            final(self).queued() == old(self).queued(),
            !final(self).running_spec(),
            final(self).done_spec() == 0,
            final(self).total_spec() == 0,
    {
        self.done = 0;
        self.total = 0;
        self.running = false;
    }
}

impl Default for AssistQueue {
    fn default() -> (r: Self)
        ensures
            r.wf(),
            r.queued() == Seq::<Seq<char>>::empty(),
            !r.running_spec(),
            r.done_spec() == 0,
            r.total_spec() == 0,
    {
        AssistQueue::new()
    }
}

/// Enqueuing keeps what was queued, in order, at the front, and every offered folder is
/// queued afterwards: no folder is ever dropped.
pub proof fn lemma_enqueue_keeps_all(q: Seq<Seq<char>>, fs: Seq<Seq<char>>)
    ensures
        q.is_prefix_of(enqueued(q, fs)),
        forall|f: Seq<char>| fs.contains(f) ==> enqueued(q, fs).contains(f),
    decreases fs.len(),
{
    if fs.len() > 0 {
        lemma_enqueue_keeps_all(q, fs.drop_last());
        let before = enqueued(q, fs.drop_last());
        assert forall|f: Seq<char>| fs.contains(f) implies enqueued(q, fs).contains(f) by {
            let k = choose|k: int| 0 <= k < fs.len() && fs[k] == f;
            if k < fs.len() - 1 {
                assert(fs.drop_last()[k] == f);
                assert(fs.drop_last().contains(f));
                let j = choose|j: int| 0 <= j < before.len() && before[j] == f;
                if !before.contains(fs.last()) {
                    assert(before.push(fs.last())[j] == f);
                }
            } else if !before.contains(fs.last()) {
                assert(before.push(fs.last())[before.len() as int] == f);
            }
        }
        if !before.contains(fs.last()) {
            assert(before.is_prefix_of(before.push(fs.last())));
        }
    }
}

/// What an enqueue adds, after the folders already queued, is exactly the offered folders
/// that were not queued yet, each once: a duplicate-free queue stays duplicate-free.
pub proof fn lemma_enqueue_adds_new(q: Seq<Seq<char>>, fs: Seq<Seq<char>>)
    requires
        q.no_duplicates(),
    ensures
        enqueued(q, fs).no_duplicates(),
        q.len() <= enqueued(q, fs).len(),
        forall|f: Seq<char>| #[trigger] enqueued(q, fs).subrange(q.len() as int, enqueued(q, fs).len() as int).contains(f)
            <==> (fs.contains(f) && !q.contains(f)),
    decreases fs.len(),
{
    lemma_enqueue_keeps_all(q, fs);
    let e = enqueued(q, fs);
    let added = e.subrange(q.len() as int, e.len() as int);
    if fs.len() == 0 {
        assert(added.len() == 0);
    } else {
        let fl = fs.drop_last();
        lemma_enqueue_adds_new(q, fl);
        lemma_enqueue_keeps_all(q, fl);
        let before = enqueued(q, fl);
        let ab = before.subrange(q.len() as int, before.len() as int);
        let x = fs.last();
        assert forall|f: Seq<char>| added.contains(f) <==> (fs.contains(f) && !q.contains(f)) by {
            if before.contains(x) {
                assert(added =~= ab);
            } else {
                assert(added =~= ab.push(x));
                if added.contains(f) && f != x {
                    let k = choose|k: int| 0 <= k < added.len() && added[k] == f;
                    assert(ab[k] == f);
                    assert(ab.contains(f));
                }
                if ab.contains(f) {
                    let k = choose|k: int| 0 <= k < ab.len() && ab[k] == f;
                    assert(added[k] == f);
                }
                assert(added[added.len() - 1] == x);
            }
            if fs.contains(f) && !q.contains(f) {
                let k = choose|k: int| 0 <= k < fs.len() && fs[k] == f;
                if k < fs.len() - 1 {
                    assert(fl[k] == f);
                    assert(fl.contains(f));
                    assert(ab.contains(f));
                    if !before.contains(x) {
                        let j = choose|j: int| 0 <= j < ab.len() && ab[j] == f;
                        assert(added[j] == f);
                    }
                } else if before.contains(x) {
                    // x was queued before: either in q (excluded) or added earlier
                    let j = choose|j: int| 0 <= j < before.len() && before[j] == x;
                    if j < q.len() {
                        assert(before.subrange(0, q.len() as int) == q);
                        assert(q[j] == x);
                        assert(q.contains(x));
                    } else {
                        assert(ab[j - q.len()] == x);
                        assert(added[j - q.len()] == x);
                    }
                }
            }
            if fs.contains(f) && !q.contains(f) {
            } else if added.contains(f) {
                if f == x {
                    if before.contains(x) {
                        let k = choose|k: int| 0 <= k < ab.len() && ab[k] == f;
                        assert(ab.contains(f));
                    } else {
                        assert(fs[fs.len() - 1] == x);
                        if q.contains(x) {
                            let j = choose|j: int| 0 <= j < q.len() && q[j] == x;
                            assert(before[j] == x);
                        }
                    }
                } else {
                    let k = choose|k: int| 0 <= k < added.len() && added[k] == f;
                    assert(ab.contains(f)) by {
                        if before.contains(x) { assert(ab[k] == f); } else { assert(ab[k] == f); }
                    }
                    let i = choose|i: int| 0 <= i < fl.len() && fl[i] == f;
                    assert(fs[i] == f);
                }
            }
        }
        if !before.contains(x) {
            assert forall|i: int, j: int| 0 <= i < j < e.len() implies e[i] != e[j] by {
                if j == e.len() - 1 {
                    assert(e[j] == x);
                    assert(e[i] == before[i]);
                    if e[i] == x { assert(before.contains(x)); }
                } else {
                    assert(e[i] == before[i] && e[j] == before[j]);
                }
            }
        }
    }
}

/// Offering folders that are all queued already changes nothing.
pub proof fn lemma_enqueue_queued(q: Seq<Seq<char>>, fs: Seq<Seq<char>>)
    requires
        forall|f: Seq<char>| fs.contains(f) ==> q.contains(f),
    ensures
        enqueued(q, fs) == q,
    decreases fs.len(),
{
    if fs.len() > 0 {
        assert forall|f: Seq<char>| fs.drop_last().contains(f) implies q.contains(f) by {
            let k = choose|k: int| 0 <= k < fs.drop_last().len() && fs.drop_last()[k] == f;
            assert(fs[k] == f);
        }
        lemma_enqueue_queued(q, fs.drop_last());
        assert(fs.contains(fs.last())) by {
            assert(fs[fs.len() - 1] == fs.last());
        }
    }
}

/// Enqueuing the same folders twice is the same as once: the second call adds nothing.
pub proof fn lemma_enqueue_idempotent(q: Seq<Seq<char>>, fs: Seq<Seq<char>>)
    ensures
        enqueued(enqueued(q, fs), fs) == enqueued(q, fs),
{
    lemma_enqueue_keeps_all(q, fs);
    lemma_enqueue_queued(enqueued(q, fs), fs);
}

} // verus!
