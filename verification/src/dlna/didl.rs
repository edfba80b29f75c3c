//! DIDL-Lite items for episodes, and the MIME types of served containers.
use vstd::prelude::*;
use crate::paths::extension_of;
use crate::text::{ascii_lower_seq, decimal, decimal2};
use crate::dlna::ids::{xml_escape_spec, encode_id_spec};

verus! {

/// Which transcode state an advertised DIDL URL points at.
#[derive(Clone, Copy, PartialEq, Eq, Debug)]
pub enum ResKind {
    Direct,
    Remux,
}

/// MIME type of a container by its (ASCII-lowercased) extension.
pub open spec fn mime_for_ext(e: Seq<char>) -> Seq<char> {
    if e == "mkv"@ { "video/x-matroska"@ }
    else if e == "mp4"@ || e == "m4v"@ { "video/mp4"@ }
    else if e == "avi"@ { "video/x-msvideo"@ }
    else if e == "mov"@ { "video/quicktime"@ }
    else if e == "webm"@ { "video/webm"@ }
    else if e == "ts"@ || e == "m2ts"@ { "video/mp2t"@ }
    else { "application/octet-stream"@ }
}

pub open spec fn mime_for_spec(path: Seq<char>) -> Seq<char> {
    match extension_of(path) {
        Some(e) => mime_for_ext(ascii_lower_seq(e)),
        None => mime_for_ext(Seq::empty()),
    }
}

pub fn mime_for(path: &str) -> (r: &'static str)
    ensures
        r@ == mime_for_spec(path@),
{
    let e = match crate::paths::extension(path) {
        Some(e) => crate::text::chars_of(e.as_str()),
        None => Vec::new(),
    };
    let mut low: Vec<char> = Vec::new();
    let mut i: usize = 0;
    while i < e.len()
        invariant
            i <= e@.len(),
            low@ == ascii_lower_seq(e@).subrange(0, i as int),
        decreases e@.len() - i,
    {
        low.push(crate::text::to_ascii_lower(e[i]));
        assert(ascii_lower_seq(e@).subrange(0, i + 1) =~= ascii_lower_seq(e@).subrange(0, i as int).push(low@[i as int]));
        i = i + 1;
    }
    assert(ascii_lower_seq(e@).subrange(0, e@.len() as int) =~= ascii_lower_seq(e@));
    assert(e@.len() == 0 ==> ascii_lower_seq(e@) =~= Seq::<char>::empty());
    let l = low.as_slice();
    if crate::text::eq_str(l, "mkv") { "video/x-matroska" }
    else if crate::text::eq_str(l, "mp4") || crate::text::eq_str(l, "m4v") { "video/mp4" }
    else if crate::text::eq_str(l, "avi") { "video/x-msvideo" }
    else if crate::text::eq_str(l, "mov") { "video/quicktime" }
    else if crate::text::eq_str(l, "webm") { "video/webm" }
    else if crate::text::eq_str(l, "ts") || crate::text::eq_str(l, "m2ts") { "video/mp2t" }
    else { "application/octet-stream" }
}

/// One `<res>` per advertised URL: direct play reports the source file's MIME type, the
/// remux copy is always H.264/AAC in MP4.
pub open spec fn protocol_info_spec(kind: ResKind, direct_mime: Seq<char>) -> Seq<char> {
    let mime = match kind {
        ResKind::Remux => "video/mp4"@,
        ResKind::Direct => direct_mime,
    };
    "http-get:*:"@ + mime + ":DLNA.ORG_OP=01"@
}

pub fn push_protocol_info(out: &mut Vec<char>, kind: ResKind, direct_mime: &str)
    ensures
        final(out)@ == old(out)@ + protocol_info_spec(kind, direct_mime@),
{
    crate::text::push_str(out, "http-get:*:");
    match kind {
        ResKind::Remux => crate::text::push_str(out, "video/mp4"),
        ResKind::Direct => crate::text::push_str(out, direct_mime),
    }
    crate::text::push_str(out, ":DLNA.ORG_OP=01");
    assert(out@ =~= old(out)@ + protocol_info_spec(kind, direct_mime@));
}

pub fn protocol_info_for(kind: ResKind, direct_mime: &str) -> (r: String)
    ensures
        r@ == protocol_info_spec(kind, direct_mime@),
{
    let mut v: Vec<char> = Vec::new();
    push_protocol_info(&mut v, kind, direct_mime);
    assert(v@ =~= protocol_info_spec(kind, direct_mime@));
    crate::text::string_of(v.as_slice())
}

/// One `<res>` element per advertised URL, from index `k` on.
pub open spec fn res_elements(urls: Seq<(Seq<char>, ResKind)>, direct_mime: Seq<char>, k: int) -> Seq<char>
    decreases urls.len() - k,
{
    if k < 0 || k >= urls.len() {
        Seq::empty()
    } else {
        "<res protocolInfo=\""@ + protocol_info_spec(urls[k].1, direct_mime) + "\">"@ + xml_escape_spec(urls[k].0)
            + "</res>"@ + res_elements(urls, direct_mime, k + 1)
    }
}

pub open spec fn url_views(urls: Seq<(&str, ResKind)>) -> Seq<(Seq<char>, ResKind)> {
    urls.map_values(|u: (&str, ResKind)| (u.0@, u.1))
}

/// The DIDL-Lite `<item>` of an episode.
pub open spec fn didl_item_spec(show_title: Seq<char>, season_no: nat, episode_id: int, season_id: int,
    number: nat, path: Seq<char>, urls: Seq<(Seq<char>, ResKind)>, art: Option<Seq<char>>) -> Seq<char>
{
    "<item id=\""@ + xml_escape_spec(encode_id_spec("episode"@, episode_id)) + "\" parentID=\"season:"@
        + crate::text::signed_decimal(season_id) + "\" restricted=\"1\"><dc:title>S"@ + decimal2(season_no) + "E"@
        + decimal2(number) + " "@ + xml_escape_spec(show_title) + "</dc:title><upnp:class>object.item.videoItem</upnp:class>"@
        + match art { Some(u) => "<upnp:albumArtURI>"@ + xml_escape_spec(u) + "</upnp:albumArtURI>"@, None => Seq::empty() }
        + res_elements(urls, mime_for_spec(path), 0) + "</item>"@
}

/// The DIDL-Lite `<item>` of an episode: id, parent season, `SxxEyy <show>` title, album
/// art when known, and one `<res>` per advertised URL.
pub fn didl_for_episode(show_title: &str, season_no: u32, episode_id: i64, season_id: i64, number: u32,
    path: &str, urls: &[(&str, ResKind)], art: Option<&str>) -> (r: String)
    ensures
        r@ == didl_item_spec(show_title@, season_no as nat, episode_id as int, season_id as int, number as nat,
            path@, url_views(urls@), match art { Some(u) => Some(u@), None => None }),
{
    let mut s = crate::text::chars_of("<item id=\"");
    let id = crate::dlna::ids::encode_id("episode", episode_id);
    let idc = crate::text::chars_of(id.as_str());
    crate::dlna::ids::push_escaped(&mut s, idc.as_slice());
    crate::text::push_str(&mut s, "\" parentID=\"season:");
    crate::text::push_i64(&mut s, season_id);
    crate::text::push_str(&mut s, "\" restricted=\"1\"><dc:title>S");
    crate::text::push_u64_2(&mut s, season_no as u64);
    crate::text::push_str(&mut s, "E");
    crate::text::push_u64_2(&mut s, number as u64);
    crate::text::push_str(&mut s, " ");
    let tc = crate::text::chars_of(show_title);
    crate::dlna::ids::push_escaped(&mut s, tc.as_slice());
    crate::text::push_str(&mut s, "</dc:title><upnp:class>object.item.videoItem</upnp:class>");
    let ghost head = s@;
    match art {
        Some(u) => {
            crate::text::push_str(&mut s, "<upnp:albumArtURI>");
            let uc = crate::text::chars_of(u);
            crate::dlna::ids::push_escaped(&mut s, uc.as_slice());
            crate::text::push_str(&mut s, "</upnp:albumArtURI>");
        },
        None => {},
    }
    let ghost with_art = s@;
    let direct_mime = mime_for(path);
    let ghost uv = url_views(urls@);
    let mut k: usize = 0;
    while k < urls.len()
        invariant
            k <= urls@.len(),
            uv == url_views(urls@),
            direct_mime@ == mime_for_spec(path@),
            s@ + res_elements(uv, direct_mime@, k as int) == with_art + res_elements(uv, direct_mime@, 0),
        decreases urls@.len() - k,
    {
        let (u, kind) = urls[k];
        let ghost before = s@;
        crate::text::push_str(&mut s, "<res protocolInfo=\"");
        push_protocol_info(&mut s, kind, direct_mime);
        crate::text::push_str(&mut s, "\">");
        let uc = crate::text::chars_of(u);
        crate::dlna::ids::push_escaped(&mut s, uc.as_slice());
        crate::text::push_str(&mut s, "</res>");
        assert(uv[k as int] == (u@, kind));
        assert(s@ + res_elements(uv, direct_mime@, k + 1) =~= before + res_elements(uv, direct_mime@, k as int));
        k = k + 1;
    }
    assert(res_elements(uv, direct_mime@, k as int) =~= Seq::<char>::empty());
    crate::text::push_str(&mut s, "</item>");
    assert(s@ =~= didl_item_spec(show_title@, season_no as nat, episode_id as int, season_id as int, number as nat,
        path@, uv, match art { Some(u) => Some(u@), None => None }));
    crate::text::string_of(s.as_slice())
}

/// Album art for a show container or episode item: the local cover file (`local_name`, a
/// file directly inside the covers folder) served from `/covers/`, else the remote cover URL.
/// An empty `base` keeps the relative form.
pub open spec fn cover_art_spec(local_name: Option<Seq<char>>, cover_url: Option<Seq<char>>, base: Seq<char>) -> Option<Seq<char>> {
    match local_name {
        Some(n) => Some(base + "/covers/"@ + n),
        None => cover_url,
    }
}

pub fn cover_art_uri(local_name: Option<&str>, cover_url: Option<&str>, base: &str) -> (r: Option<String>)
    ensures
        crate::parser::opt_str(r) == cover_art_spec(crate::dlna::http::opt_text(local_name),
            crate::dlna::http::opt_text(cover_url), base@),
{
    match local_name {
        Some(n) => {
            let mut v = crate::text::chars_of(base);
            crate::text::push_str(&mut v, "/covers/");
            crate::text::push_str(&mut v, n);
            Some(crate::text::string_of(v.as_slice()))
        },
        None => match cover_url {
            Some(u) => Some(crate::text::string_of(crate::text::chars_of(u).as_slice())),
            None => None,
        },
    }
}

/// A `/covers/` name the server may open: a bare file name, never a path.
pub open spec fn cover_name_ok_spec(name: Seq<char>) -> bool {
    name.len() > 0 && !name.contains('/') && !name.contains('\\')
}

pub fn cover_name_ok(name: &str) -> (r: bool)
    ensures
        r == cover_name_ok_spec(name@),
{
    let c = crate::text::chars_of(name);
    let mut i: usize = 0;
    while i < c.len()
        invariant
            i <= c@.len(),
            c@ == name@,
            forall|k: int| 0 <= k < i ==> c@[k] != '/' && c@[k] != '\\',
        decreases c@.len() - i,
    {
        if c[i] == '/' || c[i] == '\\' {
            proof {
                if c@[i as int] == '/' {
                    assert(name@[i as int] == '/');
                    assert(name@.contains('/'));
                } else {
                    assert(name@[i as int] == '\\');
                    assert(name@.contains('\\'));
                }
            }
            return false;
        }
        i = i + 1;
    }
    assert(!name@.contains('/') && !name@.contains('\\'));
    c.len() > 0
}

/// The image type of a cover file, by its extension in any ASCII case.
pub open spec fn cover_mime_spec(name: Seq<char>) -> Seq<char> {
    let e = match crate::paths::extension_of(name) {
        Some(e) => ascii_lower_seq(e),
        None => Seq::<char>::empty(),
    };
    if e == "jpg"@ || e == "jpeg"@ {
        "image/jpeg"@
    } else if e == "png"@ {
        "image/png"@
    } else if e == "webp"@ {
        "image/webp"@
    } else if e == "gif"@ {
        "image/gif"@
    } else {
        "application/octet-stream"@
    }
}

pub fn cover_mime(name: &str) -> (r: &'static str)
    ensures
        r@ == cover_mime_spec(name@),
{
    let e = match crate::paths::extension(name) {
        Some(e) => crate::text::chars_of(e.as_str()),
        None => Vec::new(),
    };
    let mut low: Vec<char> = Vec::new();
    let mut i: usize = 0;
    while i < e.len()
        invariant
            i <= e@.len(),
            low@ == ascii_lower_seq(e@).subrange(0, i as int),
        decreases e@.len() - i,
    {
        low.push(crate::text::to_ascii_lower(e[i]));
        assert(ascii_lower_seq(e@).subrange(0, i + 1) =~= ascii_lower_seq(e@).subrange(0, i as int).push(low@[i as int]));
        i = i + 1;
    }
    assert(ascii_lower_seq(e@).subrange(0, e@.len() as int) =~= ascii_lower_seq(e@));
    proof {
        match crate::paths::extension_of(name@) {
            Some(x) => {},
            None => { assert(e@ =~= Seq::<char>::empty()); assert(ascii_lower_seq(e@) =~= Seq::<char>::empty()); },
        }
    }
    let l = low.as_slice();
    if crate::text::eq_str(l, "jpg") || crate::text::eq_str(l, "jpeg") {
        "image/jpeg"
    } else if crate::text::eq_str(l, "png") {
        "image/png"
    } else if crate::text::eq_str(l, "webp") {
        "image/webp"
    } else if crate::text::eq_str(l, "gif") {
        "image/gif"
    } else {
        "application/octet-stream"
    }
}

/// The answer to `GET /covers/<name>`, given the file's bytes when it could be read: a
/// name that is not a bare file name, and a file that cannot be read, answer 404; a cover
/// is served with its image type and a one-hour cache lifetime.
pub fn cover_reply(name: &str, bytes: Option<Vec<u8>>) -> (r: crate::dlna::http::HttpResponse)
    ensures
        !cover_name_ok_spec(name@) || bytes is None ==> r.model().status == 404,
        cover_name_ok_spec(name@) && bytes is Some ==> {
            &&& r.model().status == 200
            &&& r.model().body == crate::dlna::http::BodyModel::Bytes(bytes->0@)
            &&& r.model().headers == crate::dlna::http::text_headers(cover_mime_spec(name@), bytes->0@.len())
                .push(("Cache-Control"@, "max-age=3600"@))
        },
{
    if !cover_name_ok(name) {
        return crate::dlna::http::HttpResponse::error(404, "Not Found", "no such cover");
    }
    match bytes {
        None => crate::dlna::http::HttpResponse::error(404, "Not Found", "no such cover"),
        Some(b) => {
            let mut r = crate::dlna::http::HttpResponse::text(200, "OK", cover_mime(name), b);
            let k = crate::text::string_of(crate::text::chars_of("Cache-Control").as_slice());
            let v = crate::text::string_of(crate::text::chars_of("max-age=3600").as_slice());
            r.headers.push((k, v));
            proof {
                assert(crate::dlna::http::headers_view(r.headers@) =~= crate::dlna::http::headers_view(r.headers@.drop_last())
                    .push(("Cache-Control"@, "max-age=3600"@)));
            }
            r
        },
    }
}

} // verus!
