//! Playback bookkeeping: which episode holds the player, which player runs, and the
//! window flags that restore a show's saved window state.
use vstd::prelude::*;
use crate::models::EpisodeStatus;
use crate::error::AppError;
use crate::text::{trim, ascii_lower_seq, unicode_lowercase, signed_decimal};

verus! {

/// The one episode that may be playing at a time.
pub struct Player {
    current: Option<i64>,
}

impl Player {
    pub closed spec fn playing(&self) -> Option<i64> {
        self.current
    }

    pub fn new() -> (r: Player)
        ensures
            r.playing() is None,
    {
        Player { current: None }
    }

    pub fn current(&self) -> (r: Option<i64>)
        ensures
            r == self.playing(),
    {
        self.current
    }

    /// Take the player for episode `id`. Refused, with nothing changed, while another
    /// episode holds it.
    pub fn claim(&mut self, id: i64) -> (r: Result<(), AppError>)
        ensures
            match old(self).playing() {
                Some(existing) => final(self).playing() == Some(existing) && (r matches Err(AppError::Player(m))
                    && m@ == "episode "@ + signed_decimal(existing as int) + " is already playing"@),
                None => final(self).playing() == Some(id) && r is Ok,
            },
    {
        if let Some(existing) = self.current {
            let mut v = crate::text::chars_of("episode ");
            crate::text::push_i64(&mut v, existing);
            crate::text::push_str(&mut v, " is already playing");
            return Err(AppError::Player(crate::text::string_of(v.as_slice())));
        }
        self.current = Some(id);
        Ok(())
    }

    pub fn release(&mut self)
        ensures
            final(self).playing() is None,
    {
        self.current = None;
    }
}

impl Default for Player {
    fn default() -> (r: Player)
        ensures
            r.playing() is None,
    {
        Player::new()
    }
}

/// Which external player a run uses.
#[derive(Debug, Clone, Copy, PartialEq, Eq)]
pub enum PlayerBackend {
    Mpv,
    Vlc,
}

impl PlayerBackend {
    pub fn as_str(self) -> (r: &'static str)
        ensures
            r@ == (match self { PlayerBackend::Mpv => "mpv"@, PlayerBackend::Vlc => "vlc"@ }),
    {
        match self {
            PlayerBackend::Mpv => "mpv",
            PlayerBackend::Vlc => "vlc",
        }
    }

    /// `"vlc"` in any ASCII case, surrounding whitespace allowed, selects VLC; anything else
    /// (missing, unrecognised) falls back to mpv.
    pub fn parse(s: &str) -> (r: PlayerBackend)
        ensures
            r == (if ascii_lower_seq(trim(s@)) == "vlc"@ { PlayerBackend::Vlc } else { PlayerBackend::Mpv }),
    {
        let c = crate::text::chars_of(s);
        let t = crate::text::trim_chars(c.as_slice());
        let mut low: Vec<char> = Vec::new();
        let mut i: usize = 0;
        while i < t.len()
            invariant
                i <= t@.len(),
                low@ == ascii_lower_seq(t@).subrange(0, i as int),
            decreases t@.len() - i,
        {
            low.push(crate::text::to_ascii_lower(t[i]));
            assert(ascii_lower_seq(t@).subrange(0, i + 1) =~= ascii_lower_seq(t@).subrange(0, i as int).push(low@[i as int]));
            i = i + 1;
        }
        assert(ascii_lower_seq(t@).subrange(0, t@.len() as int) =~= ascii_lower_seq(t@));
        if crate::text::eq_str(low.as_slice(), "vlc") {
            PlayerBackend::Vlc
        } else {
            PlayerBackend::Mpv
        }
    }
}

/// A saved window state: the one window flag to restore. Fullscreen wins over maximized,
/// which wins over an explicit size (both dimensions needed), because a player would
/// otherwise apply two conflicting window instructions.
pub enum WindowFlag {
    Fullscreen,
    Maximized,
    Size(i64, i64),
    Nothing,
}

pub open spec fn window_flag_spec(fullscreen: bool, maximized: bool, w: Option<i64>, h: Option<i64>) -> WindowFlag {
    if fullscreen {
        WindowFlag::Fullscreen
    } else if maximized {
        WindowFlag::Maximized
    } else {
        match (w, h) {
            (Some(a), Some(b)) => WindowFlag::Size(a, b),
            _ => WindowFlag::Nothing,
        }
    }
}

pub fn window_flag(fullscreen: bool, maximized: bool, w: Option<i64>, h: Option<i64>) -> (r: WindowFlag)
    ensures
        r == window_flag_spec(fullscreen, maximized, w, h),
{
    if fullscreen {
        WindowFlag::Fullscreen
    } else if maximized {
        WindowFlag::Maximized
    } else {
        match (w, h) {
            (Some(a), Some(b)) => WindowFlag::Size(a, b),
            _ => WindowFlag::Nothing,
        }
    }
}

/// mpv's window arguments for a saved state: at most one of `--fullscreen=yes`,
/// `--window-maximized=yes`, `--geometry=WxH`.
pub fn mpv_window_args(fullscreen: bool, maximized: bool, w: Option<i64>, h: Option<i64>) -> (r: Vec<String>)
    ensures
        r@.len() == (if window_flag_spec(fullscreen, maximized, w, h) is Nothing { 0int } else { 1int }),
        match window_flag_spec(fullscreen, maximized, w, h) {
            WindowFlag::Fullscreen => r@[0]@ == "--fullscreen=yes"@,
            WindowFlag::Maximized => r@[0]@ == "--window-maximized=yes"@,
            WindowFlag::Size(a, b) => r@[0]@ == "--geometry="@ + signed_decimal(a as int) + "x"@ + signed_decimal(b as int),
            WindowFlag::Nothing => true,
        },
{
    let mut args: Vec<String> = Vec::new();
    match window_flag(fullscreen, maximized, w, h) {
        WindowFlag::Fullscreen => args.push(crate::text::string_of(crate::text::chars_of("--fullscreen=yes").as_slice())),
        WindowFlag::Maximized => args.push(crate::text::string_of(crate::text::chars_of("--window-maximized=yes").as_slice())),
        WindowFlag::Size(a, b) => {
            let mut v = crate::text::chars_of("--geometry=");
            crate::text::push_i64(&mut v, a);
            crate::text::push_str(&mut v, "x");
            crate::text::push_i64(&mut v, b);
            args.push(crate::text::string_of(v.as_slice()));
        },
        WindowFlag::Nothing => {},
    }
    args
}

/// VLC's window arguments for a saved state: `--fullscreen`, `--qt-maximized`, or
/// `--width=W` and `--height=H`.
pub fn vlc_window_args(fullscreen: bool, maximized: bool, w: Option<i64>, h: Option<i64>) -> (r: Vec<String>)
    ensures
        match window_flag_spec(fullscreen, maximized, w, h) {
            WindowFlag::Fullscreen => r@.len() == 1 && r@[0]@ == "--fullscreen"@,
            WindowFlag::Maximized => r@.len() == 1 && r@[0]@ == "--qt-maximized"@,
            WindowFlag::Size(a, b) => r@.len() == 2 && r@[0]@ == "--width="@ + signed_decimal(a as int)
                && r@[1]@ == "--height="@ + signed_decimal(b as int),
            WindowFlag::Nothing => r@.len() == 0,
        },
{
    let mut args: Vec<String> = Vec::new();
    match window_flag(fullscreen, maximized, w, h) {
        WindowFlag::Fullscreen => args.push(crate::text::string_of(crate::text::chars_of("--fullscreen").as_slice())),
        WindowFlag::Maximized => args.push(crate::text::string_of(crate::text::chars_of("--qt-maximized").as_slice())),
        WindowFlag::Size(a, b) => {
            let mut v = crate::text::chars_of("--width=");
            crate::text::push_i64(&mut v, a);
            args.push(crate::text::string_of(v.as_slice()));
            let mut u = crate::text::chars_of("--height=");
            crate::text::push_i64(&mut u, b);
            args.push(crate::text::string_of(u.as_slice()));
        },
        WindowFlag::Nothing => {},
    }
    args
}

/// A reply of VLC's remote-control interface that answers a yes/no query.
pub open spec fn bool_reply(s: Seq<char>) -> bool {
    let t = unicode_lowercase(trim(s));
    t == "on"@ || t == "off"@ || t == "true"@ || t == "false"@ || t == "0"@ || t == "1"@
}

pub fn is_bool_reply(s: &str) -> (r: bool)
    ensures
        r == bool_reply(s@),
{
    let c = crate::text::chars_of(s);
    let t = crate::text::trim_chars(c.as_slice());
    let l = crate::text::to_lowercase(t.as_slice());
    let l = l.as_slice();
    crate::text::eq_str(l, "on") || crate::text::eq_str(l, "off") || crate::text::eq_str(l, "true")
        || crate::text::eq_str(l, "false") || crate::text::eq_str(l, "0") || crate::text::eq_str(l, "1")
}

/// What a VLC `fullscreen` reply says: on/true/1 and off/false/0 (any case), else nothing.
pub open spec fn fullscreen_reply_spec(s: Seq<char>) -> Option<bool> {
    let t = unicode_lowercase(s);
    if t == "on"@ || t == "true"@ || t == "1"@ {
        Some(true)
    } else if t == "off"@ || t == "false"@ || t == "0"@ {
        Some(false)
    } else {
        None
    }
}

pub fn fullscreen_reply(s: &str) -> (r: Option<bool>)
    ensures
        r == fullscreen_reply_spec(s@),
{
    let c = crate::text::chars_of(s);
    let l = crate::text::to_lowercase(c.as_slice());
    let l = l.as_slice();
    if crate::text::eq_str(l, "on") || crate::text::eq_str(l, "true") || crate::text::eq_str(l, "1") {
        Some(true)
    } else if crate::text::eq_str(l, "off") || crate::text::eq_str(l, "false") || crate::text::eq_str(l, "0") {
        Some(false)
    } else {
        None
    }
}

/// The backend the stored `player_backend` setting selects; mpv when there is none.
pub fn player_backend(setting: Option<&str>) -> (r: PlayerBackend)
    ensures
        r == (match setting {
            Some(v) => if ascii_lower_seq(trim(v@)) == "vlc"@ { PlayerBackend::Vlc } else { PlayerBackend::Mpv },
            None => PlayerBackend::Mpv,
        }),
{
    match setting {
        Some(v) => PlayerBackend::parse(v),
        None => PlayerBackend::Mpv,
    }
}

/// A player binary: the stored path when there is a non-empty one, else the fallback.
pub fn player_binary(setting: Option<String>, fallback: &str) -> (r: String)
    ensures
        r@ == (match setting { Some(v) => if v@.len() > 0 { v@ } else { fallback@ }, None => fallback@ }),
{
    match setting {
        Some(v) => {
            let c = crate::text::chars_of(v.as_str());
            if c.len() > 0 { v } else { crate::text::string_of(crate::text::chars_of(fallback).as_slice()) }
        },
        None => crate::text::string_of(crate::text::chars_of(fallback).as_slice()),
    }
}

/// When playback could not be tracked, the episode goes back to how it was: a row still marked
/// playing becomes unplayed, anything else keeps its status.
pub fn untracked_status(before: EpisodeStatus) -> (r: EpisodeStatus)
    ensures
        r == (if before == EpisodeStatus::Playing { EpisodeStatus::Unplayed } else { before }),
{
    match before {
        EpisodeStatus::Playing => EpisodeStatus::Unplayed,
        other => other,
    }
}

/// A window size reading from mpv counts only when the window is known not to be minimized
/// (a minimized window reports a bogus size) and both dimensions are positive; otherwise the
/// stored size is kept.
pub fn window_reading(minimized: Option<bool>, w: Option<i64>, h: Option<i64>) -> (r: Option<(i64, i64)>)
    ensures
        r == (match (minimized, w, h) {
            (Some(false), Some(a), Some(b)) => if a > 0 && b > 0 { Some((a, b)) } else { None },
            _ => None,
        }),
{
    match (minimized, w, h) {
        (Some(false), Some(a), Some(b)) => if a > 0 && b > 0 { Some((a, b)) } else { None },
        _ => None,
    }
}

/// A show's saved player state as the argument builders read it: the volume already
/// written out for the backend (mpv takes its percent, VLC its 0-512 steps), and the
/// saved window state.
pub struct SavedPlayerState {
    pub volume: String,
    pub window_width: Option<i64>,
    pub window_height: Option<i64>,
    pub window_maximized: bool,
    pub window_fullscreen: bool,
}

/// The mpv flags that restore a saved state: `--volume=V`, then at most one window flag.
/// Nothing saved gives no flags.
pub fn mpv_state_args(state: Option<&SavedPlayerState>) -> (r: Vec<String>)
    ensures
        match state {
            None => r@.len() == 0,
            Some(s) => {
                let f = window_flag_spec(s.window_fullscreen, s.window_maximized, s.window_width, s.window_height);
                &&& r@.len() == (if f is Nothing { 1int } else { 2int })
                &&& r@[0]@ == "--volume="@ + s.volume@
                &&& match f {
                    WindowFlag::Fullscreen => r@[1]@ == "--fullscreen=yes"@,
                    WindowFlag::Maximized => r@[1]@ == "--window-maximized=yes"@,
                    WindowFlag::Size(a, b) => r@[1]@ == "--geometry="@ + signed_decimal(a as int) + "x"@ + signed_decimal(b as int),
                    WindowFlag::Nothing => true,
                }
            },
        },
{
    match state {
        None => Vec::new(),
        Some(s) => {
            let mut v = crate::text::chars_of("--volume=");
            crate::text::push_str(&mut v, s.volume.as_str());
            let mut args: Vec<String> = Vec::new();
            args.push(crate::text::string_of(v.as_slice()));
            let mut rest = mpv_window_args(s.window_fullscreen, s.window_maximized, s.window_width, s.window_height);
            args.append(&mut rest);
            args
        },
    }
}

/// The VLC flags that restore a saved state: `--volume=V`, then the window flags.
/// Nothing saved gives no flags.
pub fn vlc_state_args(state: Option<&SavedPlayerState>) -> (r: Vec<String>)
    ensures
        match state {
            None => r@.len() == 0,
            Some(s) => {
                &&& r@.len() >= 1
                &&& r@[0]@ == "--volume="@ + s.volume@
                &&& match window_flag_spec(s.window_fullscreen, s.window_maximized, s.window_width, s.window_height) {
                    WindowFlag::Fullscreen => r@.len() == 2 && r@[1]@ == "--fullscreen"@,
                    WindowFlag::Maximized => r@.len() == 2 && r@[1]@ == "--qt-maximized"@,
                    WindowFlag::Size(a, b) => r@.len() == 3 && r@[1]@ == "--width="@ + signed_decimal(a as int)
                        && r@[2]@ == "--height="@ + signed_decimal(b as int),
                    WindowFlag::Nothing => r@.len() == 1,
                }
            },
        },
{
    match state {
        None => Vec::new(),
        Some(s) => {
            let mut v = crate::text::chars_of("--volume=");
            crate::text::push_str(&mut v, s.volume.as_str());
            let mut args: Vec<String> = Vec::new();
            args.push(crate::text::string_of(v.as_slice()));
            let mut rest = vlc_window_args(s.window_fullscreen, s.window_maximized, s.window_width, s.window_height);
            args.append(&mut rest);
            args
        },
    }
}

/// The error a failed launch reports; the claim is released before it is returned.
pub fn launch_error(backend: PlayerBackend, cause: &str) -> (r: AppError)
    ensures
        r matches AppError::Player(m) && m@ == "failed to launch "@
            + (match backend { PlayerBackend::Mpv => "mpv"@, PlayerBackend::Vlc => "vlc"@ }) + ": "@ + cause@,
{
    let mut v = crate::text::chars_of("failed to launch ");
    crate::text::push_str(&mut v, backend.as_str());
    crate::text::push_str(&mut v, ": ");
    crate::text::push_str(&mut v, cause);
    AppError::Player(crate::text::string_of(v.as_slice()))
}

/// The error a run reports when the player's control socket never bound: nothing of the
/// run was recorded.
pub fn untracked_error(backend: PlayerBackend) -> (r: AppError)
    ensures
        r matches AppError::Player(m) && m@ == "could not reach "@
            + (match backend { PlayerBackend::Mpv => "mpv"@, PlayerBackend::Vlc => "vlc"@ })
            + "'s control socket, so playback position was not tracked; this episode's progress is unchanged"@,
{
    let mut v = crate::text::chars_of("could not reach ");
    crate::text::push_str(&mut v, backend.as_str());
    crate::text::push_str(&mut v, "'s control socket, so playback position was not tracked; this episode's progress is unchanged");
    AppError::Player(crate::text::string_of(v.as_slice()))
}

/// The error a run reports when the show's player state could not be stored because the
/// show is gone.
pub fn state_not_saved(show_id: i64) -> (r: AppError)
    ensures
        r matches AppError::Db(m) && m@ == "player state for show "@ + signed_decimal(show_id as int)
            + " was not saved: the show no longer exists"@,
{
    let mut v = crate::text::chars_of("player state for show ");
    crate::text::push_i64(&mut v, show_id);
    crate::text::push_str(&mut v, " was not saved: the show no longer exists");
    AppError::Db(crate::text::string_of(v.as_slice()))
}

} // verus!
