//! Settings rules behind the app's commands: DLNA options, server name and port.
use vstd::prelude::*;
use crate::error::AppError;
use crate::text::{trim, parse_unsigned, blank, is_blank, chars_of, string_of, push_str, eq_str};

verus! {

/// Default DLNA port; enabling bumps upward through port..=port+20.
pub const DLNA_DEFAULT_PORT: u16 = 28987;
pub const DLNA_PORT_TRIES: u16 = 20;
pub const SETTING_DLNA_NAME: &'static str = "dlna_name";
pub const SETTING_DLNA_PORT: &'static str = "dlna_port";
pub const SETTING_DLNA_UUID: &'static str = "dlna_uuid";
/// Settings key for the background auto-scan cadence (string minutes, "0" = off).
pub const SETTING_AUTO_SCAN_MINS: &'static str = "auto_scan_interval_mins";
pub const DEFAULT_AUTO_SCAN_MINS: &'static str = "15";

/// Validate DLNA options: the name is trimmed, a blank name and port 0 are refused.
pub fn validate_dlna_options(name: &str, port: u16) -> (r: Result<(String, u16), AppError>)
    ensures
        trim(name@).len() == 0 ==> (r matches Err(AppError::Parse(m)) && m@ == "DLNA name cannot be blank"@),
        trim(name@).len() > 0 && port == 0 ==> (r matches Err(AppError::Parse(m)) && m@ == "DLNA port must be 1-65535"@),
        trim(name@).len() > 0 && port != 0 ==> (r matches Ok((n, p)) && n@ == trim(name@) && p == port),
{
    let c = crate::text::chars_of(name);
    let t = crate::text::trim_chars(c.as_slice());
    if t.len() == 0 {
        return Err(AppError::Parse(crate::text::string_of(crate::text::chars_of("DLNA name cannot be blank").as_slice())));
    }
    if port == 0 {
        return Err(AppError::Parse(crate::text::string_of(crate::text::chars_of("DLNA port must be 1-65535").as_slice())));
    }
    Ok((crate::text::string_of(t.as_slice()), port))
}

/// The first of the `HOSTNAME` variable and the host-name file that is not blank, trimmed.
pub open spec fn hostname_spec(env_hostname: Option<Seq<char>>, etc_hostname: Option<Seq<char>>) -> Option<Seq<char>> {
    match env_hostname {
        Some(h) if trim(h).len() > 0 => Some(trim(h)),
        _ => match etc_hostname {
            Some(h) if trim(h).len() > 0 => Some(trim(h)),
            _ => None,
        },
    }
}

fn nonblank(h: Option<&str>) -> (r: Option<Vec<char>>)
    ensures
        crate::parser::opt_chars(r) == (match h { Some(s) if trim(s@).len() > 0 => Some(trim(s@)), _ => None::<Seq<char>> }),
{
    match h {
        Some(s) => {
            let c = crate::text::chars_of(s);
            let t = crate::text::trim_chars(c.as_slice());
            if t.len() > 0 { Some(t) } else { None }
        },
        None => None,
    }
}

/// The server name offered before the user picks one: `<host> Anime`, or `Anime` when no
/// host name is known. The two inputs are the `HOSTNAME` variable and the host-name file.
pub fn default_dlna_name(env_hostname: Option<&str>, etc_hostname: Option<&str>) -> (r: String)
    ensures
        r@ == (match hostname_spec(crate::dlna::http::opt_text(env_hostname), crate::dlna::http::opt_text(etc_hostname)) {
            Some(h) => h + " Anime"@,
            None => "Anime"@,
        }),
{
    let h = match nonblank(env_hostname) {
        Some(h) => Some(h),
        None => nonblank(etc_hostname),
    };
    match h {
        Some(mut v) => {
            crate::text::push_str(&mut v, " Anime");
            crate::text::string_of(v.as_slice())
        },
        None => crate::text::string_of(crate::text::chars_of("Anime").as_slice()),
    }
}

/// The DLNA port a stored setting asks for: a `u16` other than 0, else the default.
pub open spec fn dlna_port_spec(setting: Option<Seq<char>>) -> u16 {
    match setting {
        Some(v) => match parse_unsigned(v, u16::MAX as nat) {
            Some(p) if p != 0 => p as u16,
            _ => DLNA_DEFAULT_PORT,
        },
        None => DLNA_DEFAULT_PORT,
    }
}

pub fn dlna_port_from_setting(setting: Option<&str>) -> (r: u16)
    ensures
        r == dlna_port_spec(crate::dlna::http::opt_text(setting)),
{
    match setting {
        Some(v) => {
            let c = crate::text::chars_of(v);
            match crate::text::parse_u16(c.as_slice()) {
                Some(p) if p != 0 => p,
                _ => DLNA_DEFAULT_PORT,
            }
        },
        None => DLNA_DEFAULT_PORT,
    }
}

/// The last port of the probe range `want..=want+20`, capped at 65535.
pub fn dlna_probe_end(want: u16) -> (r: u16)
    ensures
        r as int == (if want as int + DLNA_PORT_TRIES as int <= u16::MAX as int { want as int + DLNA_PORT_TRIES as int } else { u16::MAX as int }),
{
    let end: u32 = want as u32 + DLNA_PORT_TRIES as u32;
    if end <= u16::MAX as u32 { end as u16 } else { u16::MAX }
}

// ---------------------------------------------------------------------------
// Device identity
// ---------------------------------------------------------------------------

pub open spec fn is_lower_hex(c: char) -> bool {
    ('0' <= c && c <= '9') || ('a' <= c && c <= 'f')
}

/// The hyphenated lower-case text of a version-4 UUID.
pub open spec fn uuid_v4_text(u: Seq<char>) -> bool {
    &&& u.len() == 36
    &&& forall|i: int| 0 <= i < 36 ==> if i == 8 || i == 13 || i == 18 || i == 23 { u[i] == '-' } else { is_lower_hex(#[trigger] u[i]) }
    &&& u[14] == '4'
    &&& (u[19] == '8' || u[19] == '9' || u[19] == 'a' || u[19] == 'b')
}

/// Calls `uuid::Uuid::new_v4` and formats it with `Display`. The value is random; the
/// contract states what holds of every outcome: the crate writes the hyphenated lower-case
/// form, with the version nibble 4 and the RFC 4122 variant.
#[verifier::external_body]
fn random_uuid() -> (r: String)
    ensures
        uuid_v4_text(r@),
{
    uuid::Uuid::new_v4().to_string()
}

/// The persistent device id renderers remember: the stored one when it is not blank, else
/// a fresh `uuid:<v4>`, which the caller stores (the flag says so) so a restart does not
/// look like a new server.
pub fn device_uuid(stored: Option<String>) -> (r: (String, bool))
    ensures
        (stored matches Some(u) && !blank(u@)) ==> (r.0 == stored->0 && !r.1),
        !(stored matches Some(u) && !blank(u@)) ==> r.1 && r.0@.len() == 41 && r.0@.subrange(0, 5) == "uuid:"@
            && uuid_v4_text(r.0@.subrange(5, 41)),
{
    match stored {
        Some(u) => {
            if !is_blank(u.as_str()) {
                return (u, false);
            }
        },
        None => {},
    }
    let mut v = chars_of("uuid:");
    let fresh = random_uuid();
    push_str(&mut v, fresh.as_str());
    proof {
        reveal_strlit("uuid:");
        assert(v@.subrange(0, 5) =~= "uuid:"@);
        assert(v@.subrange(5, 41) =~= fresh@);
    }
    (string_of(v.as_slice()), true)
}

// ---------------------------------------------------------------------------
// Settings
// ---------------------------------------------------------------------------

/// Whether a settings write is accepted and stored: a blank DLNA name and a DLNA port that
/// is not 1-65535 are refused; a blank device id is silently not stored.
pub fn check_setting(key: &str, value: &str) -> (r: Result<bool, AppError>)
    ensures
        key@ == SETTING_DLNA_NAME@ && blank(value@) ==> (r matches Err(AppError::Parse(m)) && m@ == "DLNA name cannot be blank"@),
        key@ == SETTING_DLNA_PORT@ && !(parse_unsigned(value@, u16::MAX as nat) matches Some(p) && p != 0)
            ==> (r matches Err(AppError::Parse(m)) && m@ == "DLNA port must be 1-65535"@),
        key@ == SETTING_DLNA_UUID@ && blank(value@) ==> r == Ok::<bool, AppError>(false),
        !(key@ == SETTING_DLNA_NAME@ && blank(value@))
            && !(key@ == SETTING_DLNA_PORT@ && !(parse_unsigned(value@, u16::MAX as nat) matches Some(p) && p != 0))
            && !(key@ == SETTING_DLNA_UUID@ && blank(value@)) ==> r == Ok::<bool, AppError>(true),
{
    let k = chars_of(key);
    proof {
        reveal_strlit("dlna_name");
        reveal_strlit("dlna_port");
        reveal_strlit("dlna_uuid");
        assert(SETTING_DLNA_NAME@[5] != SETTING_DLNA_PORT@[5]);
        assert(SETTING_DLNA_NAME@[5] != SETTING_DLNA_UUID@[5]);
        assert(SETTING_DLNA_PORT@[5] != SETTING_DLNA_UUID@[5]);
    }
    if eq_str(k.as_slice(), SETTING_DLNA_NAME) && is_blank(value) {
        return Err(AppError::Parse(string_of(chars_of("DLNA name cannot be blank").as_slice())));
    }
    if eq_str(k.as_slice(), SETTING_DLNA_PORT) {
        let ok = match crate::text::parse_u16(chars_of(value).as_slice()) {
            Some(p) => p != 0,
            None => false,
        };
        if !ok {
            return Err(AppError::Parse(string_of(chars_of("DLNA port must be 1-65535").as_slice())));
        }
    }
    if eq_str(k.as_slice(), SETTING_DLNA_UUID) && is_blank(value) {
        return Ok(false);
    }
    Ok(true)
}

/// Whether any entry of a settings list has `key`.
pub open spec fn has_key(m: Seq<(String, String)>, key: Seq<char>) -> bool {
    exists|i: int| 0 <= i < m.len() && (#[trigger] m[i]).0@ == key
}

/// Fill defaults for settings keys a fresh database has no row for yet: the auto-scan
/// cadence defaults to 15 minutes; a stored value is kept.
pub fn apply_settings_defaults(m: Vec<(String, String)>) -> (r: Vec<(String, String)>)
    ensures
        has_key(m@, SETTING_AUTO_SCAN_MINS@) ==> r@ == m@,
        !has_key(m@, SETTING_AUTO_SCAN_MINS@) ==> r@.len() == m@.len() + 1 && r@.take(m@.len() as int) == m@
            && r@.last().0@ == SETTING_AUTO_SCAN_MINS@ && r@.last().1@ == DEFAULT_AUTO_SCAN_MINS@,
        stored_value(r@, SETTING_AUTO_SCAN_MINS@)
            == Some(or_default(stored_value(m@, SETTING_AUTO_SCAN_MINS@), DEFAULT_AUTO_SCAN_MINS@)),
        forall|k: Seq<char>| k != SETTING_AUTO_SCAN_MINS@ ==> #[trigger] stored_value(r@, k) == stored_value(m@, k),
{
    let mut i: usize = 0;
    while i < m.len()
        invariant
            i <= m@.len(),
            forall|j: int| 0 <= j < i ==> (#[trigger] m@[j]).0@ != SETTING_AUTO_SCAN_MINS@,
        decreases m@.len() - i,
    {
        if eq_str(chars_of(m[i].0.as_str()).as_slice(), SETTING_AUTO_SCAN_MINS) {
            assert(m@[i as int].0@ == SETTING_AUTO_SCAN_MINS@);
            proof { lemma_stored_has(m@, SETTING_AUTO_SCAN_MINS@); }
            return m;
        }
        i = i + 1;
    }
    let mut r = m;
    let ghost before = r@;
    r.push((string_of(chars_of(SETTING_AUTO_SCAN_MINS).as_slice()), string_of(chars_of(DEFAULT_AUTO_SCAN_MINS).as_slice())));
    assert(r@.take(before.len() as int) =~= before);
    proof {
        lemma_stored_has(before, SETTING_AUTO_SCAN_MINS@);
        assert(r@ =~= before.push(r@.last()));
        lemma_stored_push(before, r@.last());
    }
    r
}

proof fn lemma_stored_has(m: Seq<(String, String)>, key: Seq<char>)
    ensures
        has_key(m, key) <==> stored_value(m, key) is Some,
    decreases m.len(),
{
    if m.len() > 0 {
        lemma_stored_has(m.drop_first(), key);
        if has_key(m, key) && m[0].0@ != key {
            let i = choose|i: int| 0 <= i < m.len() && (#[trigger] m[i]).0@ == key;
            assert(m.drop_first()[i - 1] == m[i]);
        }
        if has_key(m.drop_first(), key) {
            let i = choose|i: int| 0 <= i < m.drop_first().len() && (#[trigger] m.drop_first()[i]).0@ == key;
            assert(m[i + 1] == m.drop_first()[i]);
        }
        if m[0].0@ == key {
            assert(has_key(m, key)) by { assert(m[0].0@ == key); }
        }
    }
}

/// Appending an entry leaves every stored key's value and adds the new key.
proof fn lemma_stored_push(m: Seq<(String, String)>, e: (String, String))
    ensures
        forall|k: Seq<char>| #[trigger] stored_value(m.push(e), k) == (match stored_value(m, k) {
            Some(v) => Some(v),
            None => if e.0@ == k { Some(e.1@) } else { None },
        }),
    decreases m.len(),
{
    let mp = m.push(e);
    if m.len() > 0 {
        lemma_stored_push(m.drop_first(), e);
        assert(mp.drop_first() =~= m.drop_first().push(e));
        assert(mp[0] == m[0]);
        assert forall|k: Seq<char>| #[trigger] stored_value(mp, k) == (match stored_value(m, k) {
            Some(v) => Some(v),
            None => if e.0@ == k { Some(e.1@) } else { None },
        }) by {
            assert(stored_value(m.drop_first().push(e), k) == (match stored_value(m.drop_first(), k) {
                Some(v) => Some(v),
                None => if e.0@ == k { Some(e.1@) } else { None },
            }));
        }
    } else {
        assert(mp.len() == 1 && mp[0] == e);
        assert(mp.drop_first() =~= Seq::<(String, String)>::empty());
        assert forall|k: Seq<char>| #[trigger] stored_value(mp, k) == (match stored_value(m, k) {
            Some(v) => Some(v),
            None => if e.0@ == k { Some(e.1@) } else { None },
        }) by {
            assert(stored_value(mp.drop_first(), k) is None);
        }
    }
}

/// The stored value of `key`, if any (the first entry with that key).
pub open spec fn stored_value(stored: Seq<(String, String)>, key: Seq<char>) -> Option<Seq<char>>
    decreases stored.len(),
{
    if stored.len() == 0 {
        None
    } else if stored[0].0@ == key {
        Some(stored[0].1@)
    } else {
        stored_value(stored.drop_first(), key)
    }
}

pub open spec fn or_default(v: Option<Seq<char>>, d: Seq<char>) -> Seq<char> {
    match v { Some(x) => x, None => d }
}

fn lookup(stored: &[(String, String)], key: &str) -> (r: Option<String>)
    ensures
        crate::parser::opt_str(r) == stored_value(stored@, key@),
{
    let mut i: usize = 0;
    assert(stored@.skip(0) =~= stored@);
    while i < stored.len()
        invariant
            i <= stored@.len(),
            stored_value(stored@, key@) == stored_value(stored@.skip(i as int), key@),
        decreases stored@.len() - i,
    {
        assert(stored@.skip(i as int).drop_first() =~= stored@.skip(i + 1));
        assert(stored@.skip(i as int)[0] == stored@[i as int]);
        if eq_str(chars_of(stored[i].0.as_str()).as_slice(), key) {
            return Some(string_of(chars_of(stored[i].1.as_str()).as_slice()));
        }
        i = i + 1;
    }
    None
}

fn entry(key: &str, v: Vec<char>) -> (r: (String, String))
    ensures
        r.0@ == key@,
        r.1@ == v@,
{
    (string_of(chars_of(key).as_slice()), string_of(v.as_slice()))
}

fn value_or(stored: &[(String, String)], key: &str, default: &str) -> (r: Vec<char>)
    ensures
        r@ == or_default(stored_value(stored@, key@), default@),
{
    match lookup(stored, key) {
        Some(v) => chars_of(v.as_str()),
        None => chars_of(default),
    }
}

pub open spec fn entry_view(e: (String, String)) -> (Seq<char>, Seq<char>) {
    (e.0@, e.1@)
}

/// What the Settings page shows, key by key, from the stored settings: the played
/// threshold (given as text), the player path (`mpv`), the language-model key (empty),
/// model, endpoint, assist-on-scan flag (`true`), the auto-scan cadence when stored, the
/// pause between folders, the DLNA name (`default_name`) and port; then the defaults.
pub open spec fn settings_spec(played_threshold: Seq<char>, stored: Seq<(String, String)>, default_name: Seq<char>) -> Seq<(Seq<char>, Seq<char>)> {
    let base = seq![
        ("played_threshold"@, played_threshold),
        ("mpv_path"@, or_default(stored_value(stored, "mpv_path"@), "mpv"@)),
        ("llm_api_key"@, or_default(stored_value(stored, "llm_api_key"@), ""@)),
        ("llm_model"@, or_default(stored_value(stored, "llm_model"@), crate::llm::DEFAULT_MODEL@)),
        ("llm_base_url"@, or_default(stored_value(stored, "llm_base_url"@), crate::llm::DEFAULT_BASE_URL@)),
        ("llm_assist_on_scan"@, or_default(stored_value(stored, "llm_assist_on_scan"@), "true"@))
    ];
    let with_scan = match stored_value(stored, SETTING_AUTO_SCAN_MINS@) {
        Some(v) => base.push((SETTING_AUTO_SCAN_MINS@, v)),
        None => base,
    };
    with_scan + seq![
        ("llm_delay_ms"@, or_default(stored_value(stored, "llm_delay_ms"@), "500"@)),
        (SETTING_DLNA_NAME@, or_default(stored_value(stored, SETTING_DLNA_NAME@), default_name)),
        (SETTING_DLNA_PORT@, or_default(stored_value(stored, SETTING_DLNA_PORT@), "28987"@))
    ] + if stored_value(stored, SETTING_AUTO_SCAN_MINS@) is Some {
        Seq::<(Seq<char>, Seq<char>)>::empty()
    } else {
        seq![(SETTING_AUTO_SCAN_MINS@, DEFAULT_AUTO_SCAN_MINS@)]
    }
}

pub fn settings_view(played_threshold: &str, stored: &[(String, String)], default_name: &str) -> (r: Vec<(String, String)>)
    ensures
        r@.map_values(|e: (String, String)| entry_view(e)) == settings_spec(played_threshold@, stored@, default_name@),
{
    let mut m: Vec<(String, String)> = Vec::new();
    m.push(entry("played_threshold", chars_of(played_threshold)));
    m.push(entry("mpv_path", value_or(stored, "mpv_path", "mpv")));
    m.push(entry("llm_api_key", value_or(stored, "llm_api_key", "")));
    m.push(entry("llm_model", value_or(stored, "llm_model", crate::llm::DEFAULT_MODEL)));
    m.push(entry("llm_base_url", value_or(stored, "llm_base_url", crate::llm::DEFAULT_BASE_URL)));
    m.push(entry("llm_assist_on_scan", value_or(stored, "llm_assist_on_scan", "true")));
    let scan = lookup(stored, SETTING_AUTO_SCAN_MINS);
    match &scan {
        Some(v) => m.push(entry(SETTING_AUTO_SCAN_MINS, chars_of(v.as_str()))),
        None => {},
    }
    m.push(entry("llm_delay_ms", value_or(stored, "llm_delay_ms", "500")));
    m.push(entry(SETTING_DLNA_NAME, value_or(stored, SETTING_DLNA_NAME, default_name)));
    m.push(entry(SETTING_DLNA_PORT, value_or(stored, SETTING_DLNA_PORT, "28987")));
    if scan.is_none() {
        m.push(entry(SETTING_AUTO_SCAN_MINS, chars_of(DEFAULT_AUTO_SCAN_MINS)));
    }
    assert(m@.map_values(|e: (String, String)| entry_view(e)) =~= settings_spec(played_threshold@, stored@, default_name@));
    m
}

/// Whether a scan queues its unsure folders for the language model: on unless the stored
/// setting is exactly `false`.
pub fn assist_on_scan(setting: Option<&str>) -> (r: bool)
    ensures
        r == (match setting { Some(v) => v@ != "false"@, None => true }),
{
    match setting {
        Some(v) => !eq_str(chars_of(v).as_slice(), "false"),
        None => true,
    }
}

/// How saving DLNA options reaches the running server.
#[derive(Debug, Clone, Copy, PartialEq, Eq)]
pub enum OptionsPlan {
    /// The server is off: store the options only.
    Store,
    /// Same port as the running server: stop it, wait for the port, serve again on it.
    RestartInPlace,
    /// A new port: bind the new range first (a failed rebind leaves the server up), then switch.
    Rebind,
}

pub fn dlna_options_plan(running: bool, running_port: u16, port: u16) -> (r: OptionsPlan)
    ensures
        r == (if !running { OptionsPlan::Store } else if port == running_port { OptionsPlan::RestartInPlace } else { OptionsPlan::Rebind }),
{
    if !running {
        OptionsPlan::Store
    } else if port == running_port {
        OptionsPlan::RestartInPlace
    } else {
        OptionsPlan::Rebind
    }
}

/// Playback is refused while another episode is playing.
pub fn play_guard(current: Option<i64>) -> (r: Result<(), AppError>)
    ensures
        current is None ==> r is Ok,
        current is Some ==> (r matches Err(AppError::Player(m)) && m@ == "another episode is already playing"@),
{
    match current {
        Some(_) => Err(AppError::Player(string_of(chars_of("another episode is already playing").as_slice()))),
        None => Ok(()),
    }
}

} // verus!
