//! UPnP device description of the media server.
use vstd::prelude::*;
use crate::dlna::ids::xml_escape_spec;
use crate::text::{first_index_of, trim, chars_of, push_str, push_u64, string_of, slice_chars, find_char,
    trim_chars, ascii_lower_seq, is_prefix, decimal, trim_by, is_char};

verus! {

pub const MEDIA_SERVER_ST: &'static str = "urn:schemas-upnp-org:device:MediaServer:1";

/// The DLNA media server as renderers see it.
pub struct DlnaServer {
    pub port: u16,
    pub name: String,
    pub uuid: String,
    /// Renderer requests answered so far.
    pub clients_seen: u64,
}

pub open spec fn device_xml_spec(name: Seq<char>, uuid: Seq<char>) -> Seq<char> {
    "<?xml version=\"1.0\"?>\r\n<root xmlns=\"urn:schemas-upnp-org:device-1-0\"><specVersion><major>1</major><minor>0</minor></specVersion><device><deviceType>"@
        + MEDIA_SERVER_ST@ + "</deviceType><friendlyName>"@ + xml_escape_spec(name)
        + "</friendlyName><manufacturer>anime-manager</manufacturer><modelName>anime-manager</modelName><UDN>"@
        + xml_escape_spec(uuid)
        + "</UDN><serviceList><service><serviceType>urn:schemas-upnp-org:service:ContentDirectory:1</serviceType><serviceId>urn:upnp-org:serviceId:ContentDirectory</serviceId><SCPDURL>/scpd/ContentDirectory.xml</SCPDURL><controlURL>/ctl/ContentDirectory</controlURL></service><service><serviceType>urn:schemas-upnp-org:service:ConnectionManager:1</serviceType><serviceId>urn:upnp-org:serviceId:ConnectionManager</serviceId><SCPDURL>/scpd/ConnectionManager.xml</SCPDURL><controlURL>/ctl/ConnectionManager</controlURL></service></serviceList></device></root>"@
}

impl DlnaServer {
    /// The device description served at `/desc.xml`: the friendly name and UDN escaped,
    /// and the ContentDirectory and ConnectionManager services.
    pub fn device_xml(&self) -> (r: String)
        ensures
            r@ == device_xml_spec(self.name@, self.uuid@),
    {
        let mut v = crate::text::chars_of("<?xml version=\"1.0\"?>\r\n<root xmlns=\"urn:schemas-upnp-org:device-1-0\"><specVersion><major>1</major><minor>0</minor></specVersion><device><deviceType>");
        crate::text::push_str(&mut v, MEDIA_SERVER_ST);
        crate::text::push_str(&mut v, "</deviceType><friendlyName>");
        let n = crate::text::chars_of(self.name.as_str());
        crate::dlna::ids::push_escaped(&mut v, n.as_slice());
        crate::text::push_str(&mut v, "</friendlyName><manufacturer>anime-manager</manufacturer><modelName>anime-manager</modelName><UDN>");
        let u = crate::text::chars_of(self.uuid.as_str());
        crate::dlna::ids::push_escaped(&mut v, u.as_slice());
        crate::text::push_str(&mut v, "</UDN><serviceList><service><serviceType>urn:schemas-upnp-org:service:ContentDirectory:1</serviceType><serviceId>urn:upnp-org:serviceId:ContentDirectory</serviceId><SCPDURL>/scpd/ContentDirectory.xml</SCPDURL><controlURL>/ctl/ContentDirectory</controlURL></service><service><serviceType>urn:schemas-upnp-org:service:ConnectionManager:1</serviceType><serviceId>urn:upnp-org:serviceId:ConnectionManager</serviceId><SCPDURL>/scpd/ConnectionManager.xml</SCPDURL><controlURL>/ctl/ConnectionManager</controlURL></service></serviceList></device></root>");
        assert(v@ =~= device_xml_spec(self.name@, self.uuid@));
        crate::text::string_of(v.as_slice())
    }
}

/// The service description of ContentDirectory: the one action renderers call, Browse.
pub const SCPD_CONTENT_DIRECTORY: &'static str = r#"<?xml version="1.0"?>
<scpd xmlns="urn:schemas-upnp-org:service-1-0">
<specVersion><major>1</major><minor>0</minor></specVersion>
<actionList><action><name>Browse</name>
<argumentList>
<argument><name>ObjectID</name><direction>in</direction><relatedStateVariable>A_ARG_TYPE_ObjectID</relatedStateVariable></argument>
<argument><name>BrowseFlag</name><direction>in</direction><relatedStateVariable>A_ARG_TYPE_BrowseFlag</relatedStateVariable></argument>
<argument><name>Filter</name><direction>in</direction><relatedStateVariable>A_ARG_TYPE_Filter</relatedStateVariable></argument>
<argument><name>StartingIndex</name><direction>in</direction><relatedStateVariable>A_ARG_TYPE_Index</relatedStateVariable></argument>
<argument><name>RequestedCount</name><direction>in</direction><relatedStateVariable>A_ARG_TYPE_Count</relatedStateVariable></argument>
<argument><name>SortCriteria</name><direction>in</direction><relatedStateVariable>A_ARG_TYPE_SortCriteria</relatedStateVariable></argument>
<argument><name>Result</name><direction>out</direction><relatedStateVariable>A_ARG_TYPE_Result</relatedStateVariable></argument>
<argument><name>NumberReturned</name><direction>out</direction><relatedStateVariable>A_ARG_TYPE_Count</relatedStateVariable></argument>
<argument><name>TotalMatches</name><direction>out</direction><relatedStateVariable>A_ARG_TYPE_Count</relatedStateVariable></argument>
<argument><name>UpdateID</name><direction>out</direction><relatedStateVariable>A_ARG_TYPE_UpdateID</relatedStateVariable></argument>
</argumentList></action></actionList>
<serviceStateTable>
<stateVariable sendEvents="no"><name>A_ARG_TYPE_ObjectID</name><dataType>string</dataType></stateVariable>
<stateVariable sendEvents="no"><name>A_ARG_TYPE_BrowseFlag</name><dataType>string</dataType></stateVariable>
<stateVariable sendEvents="no"><name>A_ARG_TYPE_Filter</name><dataType>string</dataType></stateVariable>
<stateVariable sendEvents="no"><name>A_ARG_TYPE_Index</name><dataType>ui4</dataType></stateVariable>
<stateVariable sendEvents="no"><name>A_ARG_TYPE_Count</name><dataType>ui4</dataType></stateVariable>
<stateVariable sendEvents="no"><name>A_ARG_TYPE_SortCriteria</name><dataType>string</dataType></stateVariable>
<stateVariable sendEvents="no"><name>A_ARG_TYPE_Result</name><dataType>string</dataType></stateVariable>
<stateVariable sendEvents="no"><name>A_ARG_TYPE_UpdateID</name><dataType>ui4</dataType></stateVariable>
</serviceStateTable>
</scpd>"#;

/// The service description of ConnectionManager: GetProtocolInfo only.
pub const SCPD_CONNECTION_MANAGER: &'static str = r#"<?xml version="1.0"?>
<scpd xmlns="urn:schemas-upnp-org:service-1-0">
<specVersion><major>1</major><minor>0</minor></specVersion>
<actionList><action><name>GetProtocolInfo</name>
<argumentList>
<argument><name>Source</name><direction>out</direction><relatedStateVariable>SourceProtocolInfo</relatedStateVariable></argument>
<argument><name>Sink</name><direction>out</direction><relatedStateVariable>SinkProtocolInfo</relatedStateVariable></argument>
</argumentList></action></actionList>
<serviceStateTable>
<stateVariable sendEvents="no"><name>SourceProtocolInfo</name><dataType>string</dataType></stateVariable>
<stateVariable sendEvents="no"><name>SinkProtocolInfo</name><dataType>string</dataType></stateVariable>
</serviceStateTable>
</scpd>"#;

/// An XML document served as a 200.
pub fn xml_document(doc: &str) -> (r: crate::dlna::http::HttpResponse)
    ensures
        r.model().status == 200,
        r.model().body == crate::dlna::http::BodyModel::Bytes(vstd::utf8::encode_utf8(doc@)),
        r.model().headers == crate::dlna::http::text_headers("text/xml; charset=\"utf-8\""@,
            vstd::utf8::encode_utf8(doc@).len()),
{
    crate::dlna::http::HttpResponse::text(200, "OK", "text/xml; charset=\"utf-8\"", crate::dlna::http::str_bytes(doc))
}

// ---------------------------------------------------------------------------
// SSDP discovery
// ---------------------------------------------------------------------------

pub const SSDP_MULTICAST: &'static str = "239.255.255.250:1900";
pub const SSDP_MAX_AGE: u32 = 1800;
/// The SERVER header: product and UPnP version.
pub const SERVER_ID: &'static str = "anime-manager/0.1.0 UPnP/1.0";

/// The lines of a text as `str::lines` splits it: at `\n`, a `\r` right before it dropped,
/// no empty line after a final `\n`.
pub open spec fn lines_of(s: Seq<char>) -> Seq<Seq<char>>
    decreases s.len(),
{
    if s.len() == 0 {
        Seq::<Seq<char>>::empty()
    } else {
        match first_index_of(s, '\n') {
            None => seq![s],
            Some(i) => if 0 <= i < s.len() {
                let l = s.subrange(0, i);
                let l = if l.len() > 0 && l.last() == '\r' { l.drop_last() } else { l };
                seq![l] + lines_of(s.subrange(i + 1, s.len() as int))
            } else {
                Seq::<Seq<char>>::empty()
            },
        }
    }
}

/// The value a header line gives the search target, if it is an `ST:` line: the text after
/// the first colon, trimmed and stripped of quotes, when the key is `st` in any case.
pub open spec fn st_of_line(l: Seq<char>) -> Option<Seq<char>> {
    match first_index_of(l, ':') {
        Some(i) => {
            let k = trim(l.subrange(0, i));
            if ascii_lower_seq(k) == "st"@ {
                Some(trim_by(trim(l.subrange(i + 1, l.len() as int)), is_char('"')))
            } else {
                None
            }
        },
        None => None,
    }
}

/// The last `ST:` value among the header lines.
pub open spec fn last_st(ls: Seq<Seq<char>>) -> Option<Seq<char>>
    decreases ls.len(),
{
    if ls.len() == 0 {
        None
    } else {
        match st_of_line(ls.last()) {
            Some(v) => Some(v),
            None => last_st(ls.drop_last()),
        }
    }
}

pub open spec fn msearch_reply_text(st: Seq<char>, ip: Seq<char>, port: u16, uuid: Seq<char>) -> Seq<char> {
    "HTTP/1.1 200 OK\r\nCACHE-CONTROL: max-age="@ + decimal(SSDP_MAX_AGE as nat) + "\r\nLOCATION: http://"@ + ip
        + ":"@ + decimal(port as nat) + "/desc.xml\r\nSERVER: "@ + SERVER_ID@ + "\r\nST: "@ + st + "\r\nUSN: "@ + uuid
        + "::"@ + MEDIA_SERVER_ST@ + "\r\n\r\n"@
}

/// A search reply, line by line: the status line, the cache lifetime, the description's
/// location, the server, the echoed `ST` and this device's USN, then the blank line.
pub proof fn lemma_msearch_reply_lines(st: Seq<char>, ip: Seq<char>, port: u16, uuid: Seq<char>)
    ensures
        msearch_reply_text(st, ip, port, uuid) == "HTTP/1.1 200 OK\r\n"@
            + ("CACHE-CONTROL: max-age="@ + decimal(SSDP_MAX_AGE as nat) + "\r\n"@)
            + ("LOCATION: http://"@ + ip + ":"@ + decimal(port as nat) + "/desc.xml\r\n"@)
            + ("SERVER: "@ + SERVER_ID@ + "\r\n"@)
            + ("ST: "@ + st + "\r\n"@)
            + ("USN: "@ + uuid + "::"@ + MEDIA_SERVER_ST@ + "\r\n"@)
            + "\r\n"@,
{
    reveal_strlit("HTTP/1.1 200 OK\r\nCACHE-CONTROL: max-age=");
    reveal_strlit("HTTP/1.1 200 OK\r\n");
    reveal_strlit("CACHE-CONTROL: max-age=");
    reveal_strlit("\r\nLOCATION: http://");
    reveal_strlit("\r\n");
    reveal_strlit("LOCATION: http://");
    reveal_strlit("/desc.xml\r\nSERVER: ");
    reveal_strlit("/desc.xml\r\n");
    reveal_strlit("SERVER: ");
    reveal_strlit("\r\nST: ");
    reveal_strlit("ST: ");
    reveal_strlit("\r\nUSN: ");
    reveal_strlit("USN: ");
    reveal_strlit("\r\n\r\n");
    assert(msearch_reply_text(st, ip, port, uuid) =~= "HTTP/1.1 200 OK\r\n"@
            + ("CACHE-CONTROL: max-age="@ + decimal(SSDP_MAX_AGE as nat) + "\r\n"@)
            + ("LOCATION: http://"@ + ip + ":"@ + decimal(port as nat) + "/desc.xml\r\n"@)
            + ("SERVER: "@ + SERVER_ID@ + "\r\n"@)
            + ("ST: "@ + st + "\r\n"@)
            + ("USN: "@ + uuid + "::"@ + MEDIA_SERVER_ST@ + "\r\n"@)
            + "\r\n"@);
}

/// The reply to a discovery packet: only an `M-SEARCH` whose last `ST` names this device
/// type, `ssdp:all` or `upnp:rootdevice` is answered, echoing that `ST`.
pub open spec fn msearch_reply_spec(request: Seq<char>, ip: Seq<char>, port: u16, uuid: Seq<char>) -> Option<Seq<char>> {
    let ls = lines_of(request);
    let first = if ls.len() > 0 { ls[0] } else { Seq::<char>::empty() };
    if !is_prefix("M-SEARCH"@, first) {
        None
    } else {
        match last_st(if ls.len() > 0 { ls.drop_first() } else { ls }) {
            Some(st) => if st == MEDIA_SERVER_ST@ || st == "ssdp:all"@ || st == "upnp:rootdevice"@ {
                Some(msearch_reply_text(st, ip, port, uuid))
            } else {
                None
            },
            None => None,
        }
    }
}

fn next_line(s: &[char]) -> (r: (Vec<char>, Vec<char>))
    requires
        s@.len() > 0,
    ensures
        lines_of(s@) == seq![r.0@] + lines_of(r.1@),
        r.1@.len() < s@.len(),
{
    match find_char(s, '\n') {
        None => {
            let rest: Vec<char> = Vec::new();
            let whole = slice_chars(s, 0, s.len());
            assert(whole@ =~= s@);
            assert(lines_of(rest@) =~= Seq::<Seq<char>>::empty());
            assert(seq![whole@] + Seq::<Seq<char>>::empty() =~= seq![s@]);
            (whole, rest)
        },
        Some(i) => {
            let n = s.len();
            let mut l = slice_chars(s, 0, i);
            let ghost l0 = l@;
            if l.len() > 0 && l[l.len() - 1] == '\r' {
                l.pop();
                assert(l@ =~= l0.drop_last());
            }
            let rest = slice_chars(s, i + 1, n);
            assert(l@ == (if l0.len() > 0 && l0.last() == '\r' { l0.drop_last() } else { l0 }));
            (l, rest)
        },
    }
}

fn st_value(l: &[char]) -> (r: Option<Vec<char>>)
    ensures
        match r {
            Some(v) => st_of_line(l@) == Some(v@),
            None => st_of_line(l@) is None,
        },
{
    match find_char(l, ':') {
        Some(i) => {
            let n = l.len();
            let k = trim_chars(slice_chars(l, 0, i).as_slice());
            let mut lower: Vec<char> = Vec::new();
            let mut j: usize = 0;
            while j < k.len()
                invariant
                    j <= k@.len(),
                    lower@.len() == j,
                    forall|m: int| 0 <= m < j ==> lower@[m] == crate::text::ascii_lower(k@[m]),
                decreases k@.len() - j,
            {
                lower.push(crate::text::to_ascii_lower(k[j]));
                j = j + 1;
            }
            assert(lower@ =~= ascii_lower_seq(k@));
            if crate::text::eq_str(lower.as_slice(), "st") {
                let v = trim_chars(slice_chars(l, i + 1, n).as_slice());
                Some(trim_quotes(v.as_slice()))
            } else {
                None
            }
        },
        None => None,
    }
}

fn trim_quotes(s: &[char]) -> (r: Vec<char>)
    ensures
        r@ == trim_by(s@, is_char('"')),
{
    let a = crate::text::trim_start_char(s, '"');
    crate::text::trim_end_char(a.as_slice(), '"')
}

/// Reply to one M-SEARCH packet, or `None` when it is not a search for this device.
/// `ip` is the advertised address as text.
pub fn ssdp_msearch_reply(request: &str, ip: &str, port: u16, uuid: &str) -> (r: Option<String>)
    ensures
        crate::parser::opt_str(r) == msearch_reply_spec(request@, ip@, port, uuid@),
{
    let all = chars_of(request);
    if all.len() == 0 {
        assert(lines_of(all@) =~= Seq::<Seq<char>>::empty());
        proof { reveal_strlit("M-SEARCH"); }
        return None;
    }
    let (first, mut rest) = next_line(all.as_slice());
    if !crate::text::starts_with_str(first.as_slice(), "M-SEARCH") {
        return None;
    }
    let ghost tail = lines_of(rest@);
    assert(lines_of(all@).drop_first() =~= tail);
    let mut st: Option<Vec<char>> = None;
    let ghost mut seen: Seq<Seq<char>> = Seq::empty();
    while rest.len() > 0
        invariant
            tail == seen + lines_of(rest@),
            match st {
                Some(v) => last_st(seen) == Some(v@),
                None => last_st(seen) is None,
            },
        decreases rest@.len(),
    {
        let (line, more) = next_line(rest.as_slice());
        proof {
            assert(seen + lines_of(rest@) =~= seen.push(line@) + lines_of(more@));
            assert(seen.push(line@).drop_last() =~= seen);
            seen = seen.push(line@);
        }
        match st_value(line.as_slice()) {
            Some(v) => st = Some(v),
            None => {},
        }
        rest = more;
    }
    assert(lines_of(rest@) =~= Seq::<Seq<char>>::empty());
    assert(seen =~= tail);
    let st = match st {
        Some(v) => v,
        None => return None,
    };
    let s = st.as_slice();
    if !(crate::text::eq_str(s, MEDIA_SERVER_ST) || crate::text::eq_str(s, "ssdp:all") || crate::text::eq_str(s, "upnp:rootdevice")) {
        return None;
    }
    let mut v = chars_of("HTTP/1.1 200 OK\r\nCACHE-CONTROL: max-age=");
    push_u64(&mut v, SSDP_MAX_AGE as u64);
    push_str(&mut v, "\r\nLOCATION: http://");
    push_str(&mut v, ip);
    push_str(&mut v, ":");
    push_u64(&mut v, port as u64);
    push_str(&mut v, "/desc.xml\r\nSERVER: ");
    push_str(&mut v, SERVER_ID);
    push_str(&mut v, "\r\nST: ");
    crate::text::push_all(&mut v, s);
    push_str(&mut v, "\r\nUSN: ");
    push_str(&mut v, uuid);
    push_str(&mut v, "::");
    push_str(&mut v, MEDIA_SERVER_ST);
    push_str(&mut v, "\r\n\r\n");
    assert(v@ =~= msearch_reply_text(st@, ip@, port, uuid@));
    Some(string_of(v.as_slice()))
}

pub open spec fn notify_alive_text(ip: Seq<char>, port: u16, uuid: Seq<char>) -> Seq<char> {
    "NOTIFY * HTTP/1.1\r\nHOST: "@ + SSDP_MULTICAST@ + "\r\nCACHE-CONTROL: max-age="@ + decimal(SSDP_MAX_AGE as nat)
        + "\r\nLOCATION: http://"@ + ip + ":"@ + decimal(port as nat) + "/desc.xml\r\nNT: "@ + MEDIA_SERVER_ST@
        + "\r\nNTS: ssdp:alive\r\nSERVER: "@ + SERVER_ID@ + "\r\nUSN: "@ + uuid + "::"@ + MEDIA_SERVER_ST@ + "\r\n\r\n"@
}

/// The `ssdp:alive` announcement sent when the server starts.
pub fn notify_alive(ip: &str, port: u16, uuid: &str) -> (r: String)
    ensures
        r@ == notify_alive_text(ip@, port, uuid@),
{
    let mut v = chars_of("NOTIFY * HTTP/1.1\r\nHOST: ");
    push_str(&mut v, SSDP_MULTICAST);
    push_str(&mut v, "\r\nCACHE-CONTROL: max-age=");
    push_u64(&mut v, SSDP_MAX_AGE as u64);
    push_str(&mut v, "\r\nLOCATION: http://");
    push_str(&mut v, ip);
    push_str(&mut v, ":");
    push_u64(&mut v, port as u64);
    push_str(&mut v, "/desc.xml\r\nNT: ");
    push_str(&mut v, MEDIA_SERVER_ST);
    push_str(&mut v, "\r\nNTS: ssdp:alive\r\nSERVER: ");
    push_str(&mut v, SERVER_ID);
    push_str(&mut v, "\r\nUSN: ");
    push_str(&mut v, uuid);
    push_str(&mut v, "::");
    push_str(&mut v, MEDIA_SERVER_ST);
    push_str(&mut v, "\r\n\r\n");
    assert(v@ =~= notify_alive_text(ip@, port, uuid@));
    string_of(v.as_slice())
}

pub open spec fn notify_byebye_text(ip: Seq<char>, port: u16, uuid: Seq<char>) -> Seq<char> {
    "NOTIFY * HTTP/1.1\r\nHOST: "@ + SSDP_MULTICAST@ + "\r\nLOCATION: http://"@ + ip + ":"@ + decimal(port as nat)
        + "/desc.xml\r\nNT: "@ + MEDIA_SERVER_ST@ + "\r\nNTS: ssdp:byebye\r\nUSN: "@ + uuid + "::"@ + MEDIA_SERVER_ST@
        + "\r\n\r\n"@
}

/// The `ssdp:byebye` announcement sent on every shutdown.
pub fn notify_byebye(ip: &str, port: u16, uuid: &str) -> (r: String)
    ensures
        r@ == notify_byebye_text(ip@, port, uuid@),
{
    let mut v = chars_of("NOTIFY * HTTP/1.1\r\nHOST: ");
    push_str(&mut v, SSDP_MULTICAST);
    push_str(&mut v, "\r\nLOCATION: http://");
    push_str(&mut v, ip);
    push_str(&mut v, ":");
    push_u64(&mut v, port as u64);
    push_str(&mut v, "/desc.xml\r\nNT: ");
    push_str(&mut v, MEDIA_SERVER_ST);
    push_str(&mut v, "\r\nNTS: ssdp:byebye\r\nUSN: ");
    push_str(&mut v, uuid);
    push_str(&mut v, "::");
    push_str(&mut v, MEDIA_SERVER_ST);
    push_str(&mut v, "\r\n\r\n");
    assert(v@ =~= notify_byebye_text(ip@, port, uuid@));
    string_of(v.as_slice())
}

} // verus!
