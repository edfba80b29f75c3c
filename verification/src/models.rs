//! The library's plain data: what the UI is sent and what the database stores.
use vstd::prelude::*;

verus! {

#[derive(Debug, Clone, Copy, PartialEq, Eq)]
pub enum EpisodeStatus {
    Unplayed,
    Playing,
    Played,
    Missing,
}

impl EpisodeStatus {
    pub open spec fn text(self) -> Seq<char> {
        match self {
            EpisodeStatus::Unplayed => "unplayed"@,
            EpisodeStatus::Playing => "playing"@,
            EpisodeStatus::Played => "played"@,
            EpisodeStatus::Missing => "missing"@,
        }
    }

    pub open spec fn from_text(s: Seq<char>) -> Option<EpisodeStatus> {
        if s == "unplayed"@ {
            Some(EpisodeStatus::Unplayed)
        } else if s == "playing"@ {
            Some(EpisodeStatus::Playing)
        } else if s == "played"@ {
            Some(EpisodeStatus::Played)
        } else if s == "missing"@ {
            Some(EpisodeStatus::Missing)
        } else {
            None
        }
    }

    pub fn as_str(self) -> (r: &'static str)
        ensures
            r@ == self.text(),
    {
        match self {
            EpisodeStatus::Unplayed => "unplayed",
            EpisodeStatus::Playing => "playing",
            EpisodeStatus::Played => "played",
            EpisodeStatus::Missing => "missing",
        }
    }

    pub fn parse(s: &str) -> (r: Option<EpisodeStatus>)
        ensures
            r == EpisodeStatus::from_text(s@),
    {
        let c = crate::text::chars_of(s);
        if crate::text::eq_str(c.as_slice(), "unplayed") {
            Some(EpisodeStatus::Unplayed)
        } else if crate::text::eq_str(c.as_slice(), "playing") {
            Some(EpisodeStatus::Playing)
        } else if crate::text::eq_str(c.as_slice(), "played") {
            Some(EpisodeStatus::Played)
        } else if crate::text::eq_str(c.as_slice(), "missing") {
            Some(EpisodeStatus::Missing)
        } else {
            None
        }
    }
}

/// A status written as text reads back as itself.
pub proof fn lemma_status_round_trip(s: EpisodeStatus)
    ensures
        EpisodeStatus::from_text(s.text()) == Some(s),
{
    reveal_strlit("unplayed");
    reveal_strlit("playing");
    reveal_strlit("played");
    reveal_strlit("missing");
    assert("unplayed"@.len() == 8);
    assert("playing"@.len() == 7);
    assert("played"@.len() == 6);
    assert("missing"@.len() == 7);
    assert("playing"@[0] != "missing"@[0]);
    assert("unplayed"@ != "playing"@);
    assert("unplayed"@ != "played"@);
    assert("unplayed"@ != "missing"@);
    assert("playing"@ != "played"@);
    assert("playing"@ != "missing"@);
    assert("played"@ != "missing"@);
}

/// Text that parses as a status is exactly that status's text.
pub proof fn lemma_status_parse_exact(t: Seq<char>)
    ensures
        EpisodeStatus::from_text(t) matches Some(s) ==> s.text() == t,
{
}

#[derive(Debug, Clone, PartialEq)]
pub struct Root {
    pub id: i64,
    pub path: String,
    pub added_at: i64,
    /// Result of the most recent scan of this root, or None if it has never been scanned.
    pub last_scan: Option<RootScan>,
}

/// What the last scan of one root did.
#[derive(Debug, Clone, PartialEq)]
pub struct RootScan {
    pub at: i64,
    pub files_seen: i64,
    pub added: i64,
    pub updated: i64,
    pub missing: i64,
    pub errors: i64,
    /// False when the folder could not be read, in which case its episodes were left untouched.
    pub readable: bool,
}

/// The four values an override kind may carry.
pub const KIND_EPISODE: &'static str = "episode";
pub const KIND_SPECIAL: &'static str = "special";
pub const KIND_MOVIE: &'static str = "movie";
pub const KIND_IGNORE: &'static str = "ignore";

#[derive(Debug, Clone, PartialEq)]
pub struct ShowCard {
    pub id: i64,
    pub display_title: String,
    pub cover_url: Option<String>,
    pub cover_path: Option<String>,
    pub episode_count: i64,
    pub unwatched_count: i64,
}

/// How the library grid is ordered.
#[derive(Debug, Clone, Copy, PartialEq, Eq)]
pub enum ShowSort {
    /// Alphabetical.
    Title,
    /// Most unwatched episodes first.
    Unwatched,
    /// Most recently played first.
    LastPlayed,
    /// Most recently added to the library first.
    RecentlyAdded,
    /// Newest file on disk first.
    RecentlyUpdated,
}

impl Default for ShowSort {
    fn default() -> (r: ShowSort)
        ensures
            r == ShowSort::Title,
    {
        ShowSort::Title
    }
}

pub open spec fn episodes_of() -> Seq<char> {
    "FROM episodes e JOIN seasons se ON e.season_id = se.id WHERE se.show_id = s.id"@
}

impl ShowSort {
    /// The ORDER BY body for this option, falling back to the title so ties never reshuffle.
    pub open spec fn order_by_spec(self, dt: Seq<char>) -> Seq<char> {
        let tail = dt + " COLLATE NOCASE ASC"@;
        match self {
            ShowSort::Title => tail,
            ShowSort::Unwatched => "(SELECT COUNT(*) "@ + episodes_of()
                + " AND e.status IN ('unplayed','playing')) DESC, "@ + tail,
            ShowSort::LastPlayed => "(SELECT MAX(e.last_played_at) "@ + episodes_of() + ") DESC, "@ + tail,
            ShowSort::RecentlyAdded => "s.created_at DESC, "@ + tail,
            ShowSort::RecentlyUpdated => "(SELECT MAX(e.mtime) "@ + episodes_of() + ") DESC, "@ + tail,
        }
    }

    pub fn order_by(self, dt: &str) -> (r: String)
        ensures
            r@ == self.order_by_spec(dt@),
    {
        let mut v: Vec<char> = Vec::new();
        match self {
            ShowSort::Title => {},
            ShowSort::Unwatched => {
                crate::text::push_str(&mut v, "(SELECT COUNT(*) ");
                crate::text::push_str(&mut v, "FROM episodes e JOIN seasons se ON e.season_id = se.id WHERE se.show_id = s.id");
                crate::text::push_str(&mut v, " AND e.status IN ('unplayed','playing')) DESC, ");
            },
            ShowSort::LastPlayed => {
                crate::text::push_str(&mut v, "(SELECT MAX(e.last_played_at) ");
                crate::text::push_str(&mut v, "FROM episodes e JOIN seasons se ON e.season_id = se.id WHERE se.show_id = s.id");
                crate::text::push_str(&mut v, ") DESC, ");
            },
            ShowSort::RecentlyAdded => {
                crate::text::push_str(&mut v, "s.created_at DESC, ");
            },
            ShowSort::RecentlyUpdated => {
                crate::text::push_str(&mut v, "(SELECT MAX(e.mtime) ");
                crate::text::push_str(&mut v, "FROM episodes e JOIN seasons se ON e.season_id = se.id WHERE se.show_id = s.id");
                crate::text::push_str(&mut v, ") DESC, ");
            },
        }
        crate::text::push_str(&mut v, dt);
        crate::text::push_str(&mut v, " COLLATE NOCASE ASC");
        assert(v@ =~= self.order_by_spec(dt@));
        crate::text::string_of(v.as_slice())
    }
}

/// What the library currently holds.
#[derive(Debug, Clone, Default, PartialEq)]
pub struct LibraryStatus {
    pub roots: i64,
    pub shows: i64,
    pub episodes: i64,
    pub missing_episodes: i64,
    /// Shows no provider has matched, which therefore have no artwork to fetch.
    pub unmatched: i64,
    /// Matched shows whose cover art is not on disk.
    pub missing_art: i64,
    /// Show rows that duplicate another row already matched to the same series.
    pub duplicates: i64,
}

#[derive(Debug, Clone, Default, PartialEq)]
pub struct ScanSummary {
    pub files_seen: usize,
    pub episodes_added: usize,
    pub episodes_updated: usize,
    pub episodes_missing: usize,
    pub errors: Vec<String>,
    /// Immediate parent folders of files the parser was unsure about.
    pub low_confidence_folders: Vec<String>,
}

/// A decision (from the LLM or the user) that outranks the file-name parser for one path.
#[derive(Debug, Clone, PartialEq)]
pub struct ParseOverride {
    pub path: String,
    pub title: String,
    pub season: u32,
    pub number: u32,
    /// "episode" | "special" | "movie" | "ignore"
    pub kind: String,
    pub source: String,
}

#[derive(Debug, Clone, PartialEq)]
pub struct ScanProgress {
    pub done: usize,
    pub total: usize,
    pub current_path: String,
}

#[derive(Debug, Clone, PartialEq)]
pub struct MetadataHit {
    pub id: i64,
    /// Which provider this came from: "anilist" or "kitsu".
    pub source: String,
    pub title_romaji: String,
    pub title_english: Option<String>,
    pub cover_url: Option<String>,
    pub episodes: Option<i64>,
}

/// Cross-search result; `warnings` names providers that failed.
#[derive(Debug, Clone, Default, PartialEq)]
pub struct SearchResult {
    pub hits: Vec<MetadataHit>,
    pub warnings: Vec<String>,
}

#[derive(Debug, Clone, PartialEq)]
pub struct RenameEntry {
    pub episode_id: i64,
    pub old_path: String,
    pub new_path: String,
    pub conflict: Option<String>,
}

#[derive(Debug, Clone, PartialEq)]
pub struct RenamePlan {
    pub entries: Vec<RenameEntry>,
}

#[derive(Debug, Clone, Default, PartialEq)]
pub struct RenameResult {
    pub renamed: usize,
    pub skipped: Vec<String>,
}

#[derive(Debug, Clone, PartialEq)]
pub enum RenameTarget {
    Show(i64),
    Episode(i64),
}

#[derive(Debug, Clone, PartialEq)]
pub struct InspectChange {
    pub path: String,
    pub from: String,
    pub to: String,
}

#[derive(Debug, Clone, Default, PartialEq)]
pub struct InspectReport {
    pub folders: usize,
    pub ignored: usize,
    pub changes: Vec<InspectChange>,
    pub notes: Vec<String>,
    /// Where the inspected show's files ended up (it may have merged into another show).
    pub show_id: Option<i64>,
}

/// Progress of the background match-and-artwork pass.
#[derive(Debug, Clone, Default, PartialEq)]
pub struct MatchProgress {
    pub done: usize,
    pub total: usize,
    /// What is being looked up or fetched right now.
    pub title: String,
    /// "matching" while titles are resolved, "artwork" while covers download.
    pub phase: String,
    /// The show whose row changed at this step.
    pub changed: Option<i64>,
    pub running: bool,
}

#[derive(Debug, Clone, Default, PartialEq)]
pub struct AssistProgress {
    pub done: usize,
    pub total: usize,
    pub folder: String,
    pub running: bool,
}

/// What the Settings page shows for the DLNA/UPnP direct-play server.
#[derive(Debug, Clone, Default, PartialEq)]
pub struct DlnaStatus {
    pub running: bool,
    pub port: u16,
    pub clients_seen: u64,
}

/// An episode row as the library's logic reads it: everything `Episode` carries but the
/// playback position and duration.
#[derive(Debug, Clone, PartialEq)]
pub struct EpisodeRow {
    pub id: i64,
    pub season_id: i64,
    pub number: u32,
    pub path: String,
    pub size: i64,
    pub mtime: i64,
    pub release_group: Option<String>,
    pub resolution: Option<String>,
    pub crc: Option<String>,
    pub status: EpisodeStatus,
    pub last_played_at: Option<i64>,
}

/// A season with its episode rows.
#[derive(Debug, Clone, PartialEq)]
pub struct SeasonRow {
    pub id: i64,
    pub number: u32,
    /// The name this season was broadcast under when it differs from the show's own.
    pub title: Option<String>,
    pub episodes: Vec<EpisodeRow>,
}

} // verus!
