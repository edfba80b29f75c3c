//! The decisions of the DLNA/UPnP server: where a request goes, what a browse answers, and
//! when streamed bytes mark an episode played. Sockets, the database and the file system
//! stay with the caller, which performs what these functions decide.
use vstd::prelude::*;
use crate::text::{first_index_of, find_char, chars_of, slice_chars, eq_str, seq_eq, find_sub_from, find_from,
    parse_unsigned, push_str, push_all, push_u64, string_of, decimal};
use crate::dlna::http::{HttpResponse, ResponseModel, BodyModel, text_headers, soap_text, browse_response_text,
    split_didl_spec, extract_tag_spec};
use crate::dlna::ids::{encode_id_spec, xml_escape_spec};
use crate::dlna::didl::{ResKind, didl_item_spec};
use crate::models::{EpisodeRow, SeasonRow, EpisodeStatus};
use vstd::utf8::encode_utf8;
use std::collections::HashMap;

verus! {

/// Where one request goes.
#[derive(Debug, Clone, PartialEq)]
pub enum Route {
    /// `GET /desc.xml`: the device description.
    DeviceDescription,
    /// `GET /scpd/ContentDirectory.xml`.
    ContentDirectoryScpd,
    /// `GET /scpd/ConnectionManager.xml`.
    ConnectionManagerScpd,
    /// `GET /covers/<name>`: a cached cover file.
    Cover { name: String },
    /// `GET` or `HEAD /media/<id>`, direct play or (with `remux=1` in the query) the MP4
    /// remux. Each such request counts as renderer activity.
    Media { id: String, remux: bool, head: bool },
    /// `POST /ctl/ContentDirectory` with a Browse action.
    Browse,
    /// `POST /ctl/ConnectionManager` with GetProtocolInfo.
    ProtocolInfo,
    /// A control POST with an action the server does not implement: UPnP fault 501.
    ActionFailed,
    /// 405 Method Not Allowed.
    MethodNotAllowed,
    /// 404 Not Found.
    NotFound,
}

/// The route as plain values.
pub enum RouteView {
    DeviceDescription,
    ContentDirectoryScpd,
    ConnectionManagerScpd,
    Cover(Seq<char>),
    Media(Seq<char>, bool, bool),
    Browse,
    ProtocolInfo,
    ActionFailed,
    MethodNotAllowed,
    NotFound,
}

impl Route {
    pub open spec fn view(&self) -> RouteView {
        match self {
            Route::DeviceDescription => RouteView::DeviceDescription,
            Route::ContentDirectoryScpd => RouteView::ContentDirectoryScpd,
            Route::ConnectionManagerScpd => RouteView::ConnectionManagerScpd,
            Route::Cover { name } => RouteView::Cover(name@),
            Route::Media { id, remux, head } => RouteView::Media(id@, *remux, *head),
            Route::Browse => RouteView::Browse,
            Route::ProtocolInfo => RouteView::ProtocolInfo,
            Route::ActionFailed => RouteView::ActionFailed,
            Route::MethodNotAllowed => RouteView::MethodNotAllowed,
            Route::NotFound => RouteView::NotFound,
        }
    }
}

/// The request target up to its first `?`.
pub open spec fn path_part(target: Seq<char>) -> Seq<char> {
    match first_index_of(target, '?') {
        Some(i) => target.subrange(0, i),
        None => target,
    }
}

/// The query: what lies between the first `?` and the next one.
pub open spec fn query_part(target: Seq<char>) -> Seq<char> {
    match first_index_of(target, '?') {
        Some(i) => {
            let rest = target.subrange(i + 1, target.len() as int);
            match first_index_of(rest, '?') {
                Some(j) => rest.subrange(0, j),
                None => rest,
            }
        },
        None => Seq::<char>::empty(),
    }
}

/// Whether one of the `&`-separated fields of `q` is exactly `f`.
pub open spec fn has_field(q: Seq<char>, f: Seq<char>) -> bool
    decreases q.len(),
{
    match first_index_of(q, '&') {
        None => q == f,
        Some(i) => if 0 <= i < q.len() {
            q.subrange(0, i) == f || has_field(q.subrange(i + 1, q.len() as int), f)
        } else {
            false
        },
    }
}

pub open spec fn contains_text(s: Seq<char>, p: Seq<char>) -> bool {
    find_from(s, p, 0) is Some
}

pub open spec fn is_prefix_of(p: Seq<char>, s: Seq<char>) -> bool {
    crate::text::is_prefix(p, s)
}

/// Where a request goes, given its method, target and SOAPAction header (empty when absent).
pub open spec fn route_spec(method: Seq<char>, target: Seq<char>, action: Seq<char>) -> RouteView {
    let path = path_part(target);
    let get = method == "GET"@;
    let head = method == "HEAD"@;
    let post = method == "POST"@;
    if get && path == "/desc.xml"@ {
        RouteView::DeviceDescription
    } else if get && path == "/scpd/ContentDirectory.xml"@ {
        RouteView::ContentDirectoryScpd
    } else if get && path == "/scpd/ConnectionManager.xml"@ {
        RouteView::ConnectionManagerScpd
    } else if get && is_prefix_of("/covers/"@, path) {
        RouteView::Cover(path.subrange("/covers/"@.len() as int, path.len() as int))
    } else if (get || head) && is_prefix_of("/media/"@, path) {
        RouteView::Media(path.subrange("/media/"@.len() as int, path.len() as int),
            has_field(query_part(target), "remux=1"@), head)
    } else if post && path == "/ctl/ContentDirectory"@ {
        if contains_text(action, "Browse"@) { RouteView::Browse } else { RouteView::ActionFailed }
    } else if post && path == "/ctl/ConnectionManager"@ {
        if contains_text(action, "GetProtocolInfo"@) { RouteView::ProtocolInfo } else { RouteView::ActionFailed }
    } else if get && (path == "/ctl/ContentDirectory"@ || path == "/ctl/ConnectionManager"@) {
        RouteView::MethodNotAllowed
    } else if get || head || post {
        RouteView::NotFound
    } else {
        RouteView::MethodNotAllowed
    }
}

fn before_question(t: &[char]) -> (r: Vec<char>)
    ensures
        r@ == path_part(t@),
{
    match find_char(t, '?') {
        Some(i) => slice_chars(t, 0, i),
        None => slice_chars(t, 0, t.len()),
    }
}

fn query_of(t: &[char]) -> (r: Vec<char>)
    ensures
        r@ == query_part(t@),
{
    match find_char(t, '?') {
        Some(i) => {
            let n = t.len();
            assert(i < n);
            let rest = slice_chars(t, i + 1, n);
            before_question(rest.as_slice())
        },
        None => Vec::new(),
    }
}

fn field_present(q: &[char], f: &[char]) -> (r: bool)
    ensures
        r == has_field(q@, f@),
{
    let mut rest = slice_chars(q, 0, q.len());
    assert(rest@ =~= q@);
    loop
        invariant
            has_field(q@, f@) == has_field(rest@, f@),
        decreases rest@.len(),
    {
        match find_char(rest.as_slice(), '&') {
            None => {
                return seq_eq(rest.as_slice(), f);
            },
            Some(i) => {
                let head = slice_chars(rest.as_slice(), 0, i);
                if seq_eq(head.as_slice(), f) {
                    return true;
                }
                let n = rest.len();
                rest = slice_chars(rest.as_slice(), i + 1, n);
            },
        }
    }
}

fn contains_str(s: &[char], p: &str) -> (r: bool)
    ensures
        r == contains_text(s@, p@),
{
    let pc = chars_of(p);
    find_sub_from(s, pc.as_slice(), 0).is_some()
}

/// Route one parsed request.
pub fn route(method: &str, target: &str, soap_action: &str) -> (r: Route)
    ensures
        r.view() == route_spec(method@, target@, soap_action@),
{
    let m = chars_of(method);
    let t = chars_of(target);
    let a = chars_of(soap_action);
    let path = before_question(t.as_slice());
    let p = path.as_slice();
    let get = eq_str(m.as_slice(), "GET");
    let head = eq_str(m.as_slice(), "HEAD");
    let post = eq_str(m.as_slice(), "POST");
    let covers = chars_of("/covers/");
    let media = chars_of("/media/");
    if get && eq_str(p, "/desc.xml") {
        Route::DeviceDescription
    } else if get && eq_str(p, "/scpd/ContentDirectory.xml") {
        Route::ContentDirectoryScpd
    } else if get && eq_str(p, "/scpd/ConnectionManager.xml") {
        Route::ConnectionManagerScpd
    } else if get && crate::text::starts_with(p, covers.as_slice()) {
        let name = slice_chars(p, covers.len(), p.len());
        Route::Cover { name: crate::text::string_of(name.as_slice()) }
    } else if (get || head) && crate::text::starts_with(p, media.as_slice()) {
        let id = slice_chars(p, media.len(), p.len());
        let q = query_of(t.as_slice());
        let remux = field_present(q.as_slice(), chars_of("remux=1").as_slice());
        Route::Media { id: crate::text::string_of(id.as_slice()), remux, head }
    } else if post && eq_str(p, "/ctl/ContentDirectory") {
        if contains_str(a.as_slice(), "Browse") { Route::Browse } else { Route::ActionFailed }
    } else if post && eq_str(p, "/ctl/ConnectionManager") {
        if contains_str(a.as_slice(), "GetProtocolInfo") { Route::ProtocolInfo } else { Route::ActionFailed }
    } else if get && (eq_str(p, "/ctl/ContentDirectory") || eq_str(p, "/ctl/ConnectionManager")) {
        Route::MethodNotAllowed
    } else if get || head || post {
        Route::NotFound
    } else {
        Route::MethodNotAllowed
    }
}

/// What a request is answered, decided by its route: a response the route fixes by itself,
/// or the reading the caller must do before it can answer (a cover file, a media file, the
/// rows of a Browse).
pub enum Answer {
    Ready(HttpResponse),
    Cover { name: String },
    Media { id: String, remux: bool, head: bool },
    Browse,
}

/// A 200 carrying an XML document.
pub open spec fn xml_model(doc: Seq<char>) -> ResponseModel {
    ResponseModel {
        status: 200,
        reason: "OK"@,
        headers: text_headers("text/xml; charset=\"utf-8\""@, encode_utf8(doc).len()),
        body: BodyModel::Bytes(encode_utf8(doc)),
    }
}

/// The answer a route fixes by itself; `None` where the caller must read something first.
pub open spec fn fixed_answer(r: RouteView, device_xml: Seq<char>) -> Option<ResponseModel> {
    match r {
        RouteView::DeviceDescription => Some(xml_model(device_xml)),
        RouteView::ContentDirectoryScpd => Some(xml_model(crate::dlna::ssdp::SCPD_CONTENT_DIRECTORY@)),
        RouteView::ConnectionManagerScpd => Some(xml_model(crate::dlna::ssdp::SCPD_CONNECTION_MANAGER@)),
        RouteView::ProtocolInfo => Some(ResponseModel {
            status: 200,
            reason: "OK"@,
            headers: text_headers("text/xml; charset=\"utf-8\""@,
                encode_utf8(soap_text(crate::dlna::http::protocol_info_text())).len()),
            body: BodyModel::Bytes(encode_utf8(soap_text(crate::dlna::http::protocol_info_text()))),
        }),
        RouteView::ActionFailed => Some(fault_model(501, "Action Failed"@)),
        RouteView::MethodNotAllowed => Some(error_model(405, "Method Not Allowed"@, "unsupported method"@)),
        RouteView::NotFound => Some(error_model(404, "Not Found"@, "no such resource"@)),
        _ => None,
    }
}

/// Whether `a` is the answer route `r` gives.
pub open spec fn answers(r: RouteView, device_xml: Seq<char>, a: Answer) -> bool {
    match fixed_answer(r, device_xml) {
        Some(m) => a matches Answer::Ready(resp) && resp.model() == m,
        None => match r {
            RouteView::Cover(n) => a matches Answer::Cover { name } && name@ == n,
            RouteView::Media(i, x, h) => a matches Answer::Media { id, remux, head } && id@ == i && remux == x && head == h,
            _ => a is Browse,
        },
    }
}

/// Whether a request counts as renderer activity: a `GET` or `HEAD` of a media object.
pub open spec fn renderer_request(method: Seq<char>, target: Seq<char>) -> bool {
    (method == "GET"@ || method == "HEAD"@) && is_prefix_of("/media/"@, path_part(target))
}

/// Only the media route serves paths under `/media/`, and it serves GET and HEAD alike.
proof fn lemma_media_route(method: Seq<char>, target: Seq<char>, action: Seq<char>)
    ensures
        (route_spec(method, target, action) is Media) <==> renderer_request(method, target),
{
    let path = path_part(target);
    reveal_strlit("/media/");
    reveal_strlit("/covers/");
    reveal_strlit("/desc.xml");
    reveal_strlit("/scpd/ContentDirectory.xml");
    reveal_strlit("/scpd/ConnectionManager.xml");
    if is_prefix_of("/media/"@, path) {
        assert(path.subrange(0, 7)[1] == 'm');
        assert(path[1] == 'm');
        assert(path != "/desc.xml"@) by { assert("/desc.xml"@[1] == 'd'); }
        assert(path != "/scpd/ContentDirectory.xml"@) by { assert("/scpd/ContentDirectory.xml"@[1] == 's'); }
        assert(path != "/scpd/ConnectionManager.xml"@) by { assert("/scpd/ConnectionManager.xml"@[1] == 's'); }
        assert(!is_prefix_of("/covers/"@, path)) by {
            if is_prefix_of("/covers/"@, path) {
                assert(path.subrange(0, 8)[1] == 'c');
            }
        }
    }
}

/// How one request is handled.
pub struct Dispatch {
    /// What it is answered, or what must be read to answer it.
    pub answer: Answer,
    /// Whether it counts as renderer activity (the caller bumps its counter).
    pub renderer: bool,
}

/// Decide how one request is answered, from its method, target and SOAPAction header
/// (empty when absent), and the device description the server publishes.
pub fn dispatch(method: &str, target: &str, soap_action: &str, device_xml: &str) -> (d: Dispatch)
    ensures
        answers(route_spec(method@, target@, soap_action@), device_xml@, d.answer),
        d.renderer == renderer_request(method@, target@),
{
    let r = route(method, target, soap_action);
    proof { lemma_media_route(method@, target@, soap_action@); }
    let renderer = match &r {
        Route::Media { .. } => true,
        _ => false,
    };
    let answer = match r {
        Route::DeviceDescription => Answer::Ready(HttpResponse::text(200, "OK", "text/xml; charset=\"utf-8\"",
            crate::dlna::http::str_bytes(device_xml))),
        Route::ContentDirectoryScpd => Answer::Ready(HttpResponse::text(200, "OK", "text/xml; charset=\"utf-8\"",
            crate::dlna::http::str_bytes(crate::dlna::ssdp::SCPD_CONTENT_DIRECTORY))),
        Route::ConnectionManagerScpd => Answer::Ready(HttpResponse::text(200, "OK", "text/xml; charset=\"utf-8\"",
            crate::dlna::http::str_bytes(crate::dlna::ssdp::SCPD_CONNECTION_MANAGER))),
        Route::Cover { name } => Answer::Cover { name },
        Route::Media { id, remux, head } => Answer::Media { id, remux, head },
        Route::Browse => Answer::Browse,
        Route::ProtocolInfo => Answer::Ready(crate::dlna::http::serve_protocol_info()),
        Route::ActionFailed => Answer::Ready(crate::dlna::http::soap_fault(501, "Action Failed")),
        Route::MethodNotAllowed => Answer::Ready(HttpResponse::error(405, "Method Not Allowed", "unsupported method")),
        Route::NotFound => Answer::Ready(HttpResponse::error(404, "Not Found", "no such resource")),
    };
    Dispatch { answer, renderer }
}

/// The status and body of the fixed answers, and when a request counts as renderer
/// activity: a method other than GET, HEAD and POST is 405, as is a GET of a control URL;
/// a ContentDirectory control POST whose action is not Browse is UPnP fault 501; a
/// GET/HEAD/POST of an unknown path is 404; `GET /desc.xml` is a 200 carrying the device
/// description; the counter moves exactly for GET and HEAD of `/media/...`.
pub proof fn lemma_status_matrix(method: Seq<char>, target: Seq<char>, action: Seq<char>, device_xml: Seq<char>)
    ensures
        !(method == "GET"@ || method == "HEAD"@ || method == "POST"@)
            ==> (fixed_answer(route_spec(method, target, action), device_xml) matches Some(m) && m.status == 405),
        (method == "GET"@ && (path_part(target) == "/ctl/ContentDirectory"@ || path_part(target) == "/ctl/ConnectionManager"@))
            ==> (fixed_answer(route_spec(method, target, action), device_xml) matches Some(m) && m.status == 405),
        (method == "POST"@ && path_part(target) == "/ctl/ContentDirectory"@ && !contains_text(action, "Browse"@))
            ==> fixed_answer(route_spec(method, target, action), device_xml) == Some(fault_model(501, "Action Failed"@)),
        (method == "GET"@ && path_part(target) == "/desc.xml"@)
            ==> (fixed_answer(route_spec(method, target, action), device_xml) matches Some(m) && m.status == 200
                && m.body == BodyModel::Bytes(encode_utf8(device_xml))),
        route_spec(method, target, action) is NotFound
            ==> (fixed_answer(route_spec(method, target, action), device_xml) matches Some(m) && m.status == 404),
        (route_spec(method, target, action) is Media) <==> renderer_request(method, target),
{
    lemma_media_route(method, target, action);
    let path = path_part(target);
    if path == "/ctl/ContentDirectory"@ || path == "/ctl/ConnectionManager"@ {
        reveal_strlit("/ctl/ContentDirectory");
        reveal_strlit("/ctl/ConnectionManager");
        reveal_strlit("GET");
        reveal_strlit("POST");
        assert("GET"@ != "POST"@) by { assert("GET"@.len() != "POST"@.len()); }
        reveal_strlit("/covers/");
        reveal_strlit("/media/");
        reveal_strlit("/desc.xml");
        reveal_strlit("/scpd/ContentDirectory.xml");
        reveal_strlit("/scpd/ConnectionManager.xml");
        assert(path[1] == 'c' && path[2] == 't');
        assert(!is_prefix_of("/covers/"@, path)) by {
            if is_prefix_of("/covers/"@, path) { assert(path.subrange(0, 8)[2] == 'o'); }
        }
        assert(!is_prefix_of("/media/"@, path)) by {
            if is_prefix_of("/media/"@, path) { assert(path.subrange(0, 7)[1] == 'm'); }
        }
        assert(path != "/desc.xml"@) by { assert("/desc.xml"@[1] == 'd'); }
        assert(path != "/scpd/ContentDirectory.xml"@) by { assert("/scpd/ContentDirectory.xml"@[1] == 's'); }
        assert(path != "/scpd/ConnectionManager.xml"@) by { assert("/scpd/ConnectionManager.xml"@[1] == 's'); }
    }
}

/// A path no route serves: a GET, HEAD or POST of it is 404.
pub proof fn lemma_unknown_path_404(method: Seq<char>, target: Seq<char>, action: Seq<char>, device_xml: Seq<char>)
    requires
        method == "GET"@ || method == "HEAD"@ || method == "POST"@,
        ({
            let path = path_part(target);
            &&& path != "/desc.xml"@
            &&& path != "/scpd/ContentDirectory.xml"@
            &&& path != "/scpd/ConnectionManager.xml"@
            &&& !is_prefix_of("/covers/"@, path)
            &&& !is_prefix_of("/media/"@, path)
            &&& path != "/ctl/ContentDirectory"@
            &&& path != "/ctl/ConnectionManager"@
        }),
    ensures
        fixed_answer(route_spec(method, target, action), device_xml) == Some(error_model(404, "Not Found"@, "no such resource"@)),
{
}

/// The HEAD rule: a HEAD of a media object is answered with the headers GET would carry
/// and an empty body, and never counts towards played marking. Every other answer goes out
/// as it is and may count. Returns the response to send and whether its bytes may count.
pub fn finish_answer(head_media: bool, resp: HttpResponse) -> (out: (HttpResponse, bool))
    ensures
        head_media ==> out.0.model() == (ResponseModel { body: BodyModel::Bytes(Seq::<u8>::empty()), ..resp.model() })
            && !out.1,
        !head_media ==> out.0.model() == resp.model() && out.1,
{
    if head_media {
        let HttpResponse { status, reason, headers, body: _ } = resp;
        (HttpResponse { status, reason, headers, body: crate::dlna::http::Body::Bytes(Vec::new()) }, false)
    } else {
        (resp, true)
    }
}

// ---------------------------------------------------------------------------
// Browse paging
// ---------------------------------------------------------------------------

/// A paging number from the request: the tag's text read as `usize`, 0 when absent or
/// unreadable.
pub open spec fn tag_number(t: Option<Seq<char>>) -> nat {
    match t {
        Some(s) => match parse_unsigned(s, usize::MAX as nat) {
            Some(v) => v,
            None => 0,
        },
        None => 0,
    }
}

/// The slice `start..end` of `total` items a page returns: StartingIndex capped at the
/// total; RequestedCount 0 means everything from there.
pub open spec fn page_bounds(start: nat, count: nat, total: nat) -> (nat, nat) {
    let a = if start < total { start } else { total };
    let e = if count == 0 { total } else if a + count < total { a + count } else { total };
    (a, e)
}

pub open spec fn concat_all(items: Seq<Seq<char>>) -> Seq<char>
    decreases items.len(),
{
    if items.len() == 0 {
        Seq::<char>::empty()
    } else {
        concat_all(items.drop_last()) + items.last()
    }
}

/// The Browse answer for a listing: the page of its items the request asks for, with the
/// number returned and the total.
pub open spec fn browse_page_spec(didl: Seq<char>, soap_body: Seq<char>) -> ResponseModel {
    let items = split_didl_spec(didl);
    let (a, e) = page_bounds(tag_number(extract_tag_spec(soap_body, "StartingIndex"@)),
        tag_number(extract_tag_spec(soap_body, "RequestedCount"@)), items.len());
    let body = encode_utf8(soap_text(browse_response_text(concat_all(items.subrange(a as int, e as int)),
        (e - a) as nat, items.len())));
    ResponseModel {
        status: 200,
        reason: "OK"@,
        headers: text_headers("text/xml; charset=\"utf-8\""@, body.len()),
        body: BodyModel::Bytes(body),
    }
}

fn tag_value(body: &str, tag: &str) -> (r: usize)
    ensures
        r as nat == tag_number(extract_tag_spec(body@, tag@)),
{
    match crate::dlna::http::extract_tag(body, tag) {
        Some(t) => match crate::text::parse_usize(chars_of(t.as_str()).as_slice()) {
            Some(v) => v,
            None => 0,
        },
        None => 0,
    }
}

/// Answer a Browse request with the page of `didl` it asks for.
pub fn browse_page(didl: &str, soap_body: &str) -> (r: HttpResponse)
    ensures
        r.model() == browse_page_spec(didl@, soap_body@),
{
    let items = crate::dlna::http::split_didl_items(didl);
    let ghost iv = split_didl_spec(didl@);
    let total = items.len();
    let start0 = tag_value(soap_body, "StartingIndex");
    let count = tag_value(soap_body, "RequestedCount");
    let start = if start0 < total { start0 } else { total };
    let end = if count == 0 { total } else if count < total - start { start + count } else { total };
    let mut page: Vec<char> = Vec::new();
    let mut k: usize = start;
    assert(iv.subrange(start as int, start as int) =~= Seq::<Seq<char>>::empty());
    while k < end
        invariant
            start <= k <= end <= total,
            total == iv.len(),
            items@.len() == iv.len(),
            forall|j: int| 0 <= j < items@.len() ==> (#[trigger] items@[j])@ == iv[j],
            page@ == concat_all(iv.subrange(start as int, k as int)),
        decreases end - k,
    {
        let piece = chars_of(items[k].as_str());
        push_all(&mut page, piece.as_slice());
        assert(iv.subrange(start as int, k + 1).drop_last() =~= iv.subrange(start as int, k as int));
        k = k + 1;
    }
    let body = crate::dlna::http::browse_response(string_of(page.as_slice()).as_str(), end - start, total);
    HttpResponse::text(200, "OK", "text/xml; charset=\"utf-8\"", body)
}

// ---------------------------------------------------------------------------
// Browse listings
// ---------------------------------------------------------------------------

/// The root container: the single "Shows" folder.
pub const ROOT_LISTING: &'static str = "<container id=\"shows:0\" parentID=\"root:0\" restricted=\"1\"><dc:title>Shows</dc:title></container>";

/// A show as the Shows folder lists it: id, title and album art when there is any.
#[derive(Debug, Clone, PartialEq)]
pub struct BrowseShow {
    pub id: i64,
    pub title: String,
    pub art: Option<String>,
}

pub open spec fn art_element(art: Option<Seq<char>>) -> Seq<char> {
    match art {
        Some(u) => "<upnp:albumArtURI>"@ + xml_escape_spec(u) + "</upnp:albumArtURI>"@,
        None => Seq::<char>::empty(),
    }
}

pub open spec fn show_container(s: BrowseShow) -> Seq<char> {
    "<container id=\""@ + xml_escape_spec(encode_id_spec("show"@, s.id as int))
        + "\" parentID=\"shows:0\" restricted=\"1\"><dc:title>"@ + xml_escape_spec(s.title@) + "</dc:title>"@
        + art_element(crate::parser::opt_str(s.art)) + "</container>"@
}

pub open spec fn shows_listing_spec(shows: Seq<BrowseShow>) -> Seq<char>
    decreases shows.len(),
{
    if shows.len() == 0 {
        Seq::<char>::empty()
    } else {
        shows_listing_spec(shows.drop_last()) + show_container(shows.last())
    }
}

fn push_escaped_str(out: &mut Vec<char>, s: &str)
    ensures
        final(out)@ == old(out)@ + xml_escape_spec(s@),
{
    let c = chars_of(s);
    crate::dlna::ids::push_escaped(out, c.as_slice());
}

/// The Shows folder: one container per show, in the order given.
pub fn shows_listing(shows: &[BrowseShow]) -> (r: String)
    ensures
        r@ == shows_listing_spec(shows@),
{
    let mut out: Vec<char> = Vec::new();
    let mut i: usize = 0;
    while i < shows.len()
        invariant
            i <= shows@.len(),
            out@ == shows_listing_spec(shows@.take(i as int)),
        decreases shows@.len() - i,
    {
        let s = &shows[i];
        let ghost before = out@;
        push_str(&mut out, "<container id=\"");
        let id = crate::dlna::ids::encode_id("show", s.id);
        push_escaped_str(&mut out, id.as_str());
        push_str(&mut out, "\" parentID=\"shows:0\" restricted=\"1\"><dc:title>");
        push_escaped_str(&mut out, s.title.as_str());
        push_str(&mut out, "</dc:title>");
        match &s.art {
            Some(u) => {
                push_str(&mut out, "<upnp:albumArtURI>");
                push_escaped_str(&mut out, u.as_str());
                push_str(&mut out, "</upnp:albumArtURI>");
            },
            None => {},
        }
        push_str(&mut out, "</container>");
        assert(shows@.take(i + 1).drop_last() =~= shows@.take(i as int));
        assert(shows@.take(i + 1).last() == shows@[i as int]);
        assert(out@ =~= before + show_container(shows@[i as int]));
        i = i + 1;
    }
    assert(shows@.take(shows@.len() as int) =~= shows@);
    string_of(out.as_slice())
}

/// A season's label: its broadcast title, else `Season <n>`.
pub open spec fn season_label(se: SeasonRow) -> Seq<char> {
    match se.title {
        Some(t) => t@,
        None => "Season "@ + decimal(se.number as nat),
    }
}

pub open spec fn season_container(object_id: Seq<char>, se: SeasonRow) -> Seq<char> {
    "<container id=\""@ + xml_escape_spec(encode_id_spec("season"@, se.id as int)) + "\" parentID=\""@
        + xml_escape_spec(object_id) + "\" restricted=\"1\"><dc:title>"@ + xml_escape_spec(season_label(se))
        + "</dc:title></container>"@
}

pub open spec fn seasons_listing_spec(object_id: Seq<char>, seasons: Seq<SeasonRow>) -> Seq<char>
    decreases seasons.len(),
{
    if seasons.len() == 0 {
        Seq::<char>::empty()
    } else {
        seasons_listing_spec(object_id, seasons.drop_last()) + season_container(object_id, seasons.last())
    }
}

/// A show's folder: one container per season.
pub fn seasons_listing(object_id: &str, seasons: &[SeasonRow]) -> (r: String)
    ensures
        r@ == seasons_listing_spec(object_id@, seasons@),
{
    let mut out: Vec<char> = Vec::new();
    let mut i: usize = 0;
    while i < seasons.len()
        invariant
            i <= seasons@.len(),
            out@ == seasons_listing_spec(object_id@, seasons@.take(i as int)),
        decreases seasons@.len() - i,
    {
        let se = &seasons[i];
        let ghost before = out@;
        push_str(&mut out, "<container id=\"");
        let id = crate::dlna::ids::encode_id("season", se.id);
        push_escaped_str(&mut out, id.as_str());
        push_str(&mut out, "\" parentID=\"");
        push_escaped_str(&mut out, object_id);
        push_str(&mut out, "\" restricted=\"1\"><dc:title>");
        let label = match &se.title {
            Some(t) => chars_of(t.as_str()),
            None => {
                let mut v = chars_of("Season ");
                push_u64(&mut v, se.number as u64);
                v
            },
        };
        crate::dlna::ids::push_escaped(&mut out, label.as_slice());
        push_str(&mut out, "</dc:title></container>");
        assert(seasons@.take(i + 1).drop_last() =~= seasons@.take(i as int));
        assert(seasons@.take(i + 1).last() == seasons@[i as int]);
        assert(out@ =~= before + season_container(object_id@, seasons@[i as int]));
        i = i + 1;
    }
    assert(seasons@.take(seasons@.len() as int) =~= seasons@);
    string_of(out.as_slice())
}

/// Where an episode is streamed from: `<base>/media/episode:<id>`, with `?remux=1` for the
/// MP4 remux. An empty base keeps the relative form.
pub open spec fn media_url_spec(base: Seq<char>, episode_id: int, remux: bool) -> Seq<char> {
    base + "/media/"@ + encode_id_spec("episode"@, episode_id) + if remux { "?remux=1"@ } else { Seq::<char>::empty() }
}

pub fn media_url(base: &str, episode_id: i64, remux: bool) -> (r: String)
    ensures
        r@ == media_url_spec(base@, episode_id as int, remux),
{
    let mut v = chars_of(base);
    push_str(&mut v, "/media/");
    let id = crate::dlna::ids::encode_id("episode", episode_id);
    push_str(&mut v, id.as_str());
    if remux {
        push_str(&mut v, "?remux=1");
    }
    string_of(v.as_slice())
}

/// The resources an episode advertises: direct play, then the remux when ffmpeg is there.
pub open spec fn episode_urls(base: Seq<char>, episode_id: int, ffmpeg: bool) -> Seq<(Seq<char>, ResKind)> {
    if ffmpeg {
        seq![(media_url_spec(base, episode_id, false), ResKind::Direct), (media_url_spec(base, episode_id, true), ResKind::Remux)]
    } else {
        seq![(media_url_spec(base, episode_id, false), ResKind::Direct)]
    }
}

pub open spec fn episode_item_spec(show_title: Seq<char>, season_no: u32, ep: EpisodeRow, art: Option<Seq<char>>,
    ffmpeg: bool, base: Seq<char>) -> Seq<char>
{
    didl_item_spec(show_title, season_no as nat, ep.id as int, ep.season_id as int, ep.number as nat, ep.path@,
        episode_urls(base, ep.id as int, ffmpeg), art)
}

/// One episode's DIDL item.
pub fn episode_item(show_title: &str, season_no: u32, ep: &EpisodeRow, art: Option<&str>, ffmpeg: bool, base: &str) -> (r: String)
    ensures
        r@ == episode_item_spec(show_title@, season_no, *ep, crate::dlna::http::opt_text(art), ffmpeg, base@),
{
    let direct = media_url(base, ep.id, false);
    let remux = media_url(base, ep.id, true);
    let mut urls: Vec<(&str, ResKind)> = Vec::new();
    urls.push((direct.as_str(), ResKind::Direct));
    if ffmpeg {
        urls.push((remux.as_str(), ResKind::Remux));
    }
    assert(crate::dlna::didl::url_views(urls@) =~= episode_urls(base@, ep.id as int, ffmpeg));
    let r = crate::dlna::didl::didl_for_episode(show_title, season_no, ep.id, ep.season_id, ep.number, ep.path.as_str(),
        urls.as_slice(), art);
    assert(match art { Some(u) => Some(u@), None => None::<Seq<char>> } == crate::dlna::http::opt_text(art));
    r
}

pub open spec fn season_items_spec(show_title: Seq<char>, season_no: u32, eps: Seq<EpisodeRow>, art: Option<Seq<char>>,
    ffmpeg: bool, base: Seq<char>) -> Seq<char>
    decreases eps.len(),
{
    if eps.len() == 0 {
        Seq::<char>::empty()
    } else {
        let e = eps.last();
        season_items_spec(show_title, season_no, eps.drop_last(), art, ffmpeg, base)
            + if e.status == EpisodeStatus::Missing { Seq::<char>::empty() } else {
                episode_item_spec(show_title, season_no, e, art, ffmpeg, base)
            }
    }
}

pub open spec fn on_disk() -> spec_fn(EpisodeRow) -> bool {
    |e: EpisodeRow| e.status != EpisodeStatus::Missing
}

proof fn lemma_season_items_alt(show_title: Seq<char>, season_no: u32, eps: Seq<EpisodeRow>, art: Option<Seq<char>>,
    ffmpeg: bool, base: Seq<char>)
    ensures
        season_items_spec(show_title, season_no, eps, art, ffmpeg, base)
            == eps.filter(on_disk()).map_values(|e: EpisodeRow| episode_item_spec(show_title, season_no, e, art, ffmpeg, base)).flatten_alt(),
    decreases eps.len(),
{
    reveal(Seq::filter);
    let f = |e: EpisodeRow| episode_item_spec(show_title, season_no, e, art, ffmpeg, base);
    if eps.len() > 0 {
        lemma_season_items_alt(show_title, season_no, eps.drop_last(), art, ffmpeg, base);
        let prev = eps.drop_last().filter(on_disk());
        let e = eps.last();
        if e.status != EpisodeStatus::Missing {
            assert(eps.filter(on_disk()) == prev.push(e));
            assert(prev.push(e).map_values(f) =~= prev.map_values(f).push(f(e)));
            assert(prev.map_values(f).push(f(e)).drop_last() =~= prev.map_values(f));
        } else {
            assert(eps.filter(on_disk()) == prev);
            assert(season_items_spec(show_title, season_no, eps, art, ffmpeg, base)
                =~= season_items_spec(show_title, season_no, eps.drop_last(), art, ffmpeg, base));
        }
    } else {
        assert(eps.filter(on_disk()) =~= Seq::<EpisodeRow>::empty());
        assert(eps.filter(on_disk()).map_values(f) =~= Seq::<Seq<char>>::empty());
    }
}

/// A season lists, in the order of its rows, the DIDL item of exactly each episode that is
/// on disk: missing episodes are hidden.
pub proof fn lemma_season_items_on_disk(show_title: Seq<char>, season_no: u32, eps: Seq<EpisodeRow>, art: Option<Seq<char>>,
    ffmpeg: bool, base: Seq<char>)
    ensures
        season_items_spec(show_title, season_no, eps, art, ffmpeg, base)
            == eps.filter(on_disk()).map_values(|e: EpisodeRow| episode_item_spec(show_title, season_no, e, art, ffmpeg, base)).flatten(),
{
    lemma_season_items_alt(show_title, season_no, eps, art, ffmpeg, base);
    eps.filter(on_disk()).map_values(|e: EpisodeRow| episode_item_spec(show_title, season_no, e, art, ffmpeg, base))
        .lemma_flatten_and_flatten_alt_are_equivalent();
}

/// A season's folder: one item per episode on disk (missing rows are hidden).
pub fn season_items(show_title: &str, season: &SeasonRow, art: Option<&str>, ffmpeg: bool, base: &str) -> (r: String)
    ensures
        r@ == season_items_spec(show_title@, season.number, season.episodes@, crate::dlna::http::opt_text(art), ffmpeg, base@),
{
    let mut out: Vec<char> = Vec::new();
    let mut i: usize = 0;
    let eps = &season.episodes;
    while i < eps.len()
        invariant
            i <= eps@.len(),
            eps@ == season.episodes@,
            out@ == season_items_spec(show_title@, season.number, eps@.take(i as int), crate::dlna::http::opt_text(art), ffmpeg, base@),
        decreases eps@.len() - i,
    {
        let e = &eps[i];
        assert(eps@.take(i + 1).drop_last() =~= eps@.take(i as int));
        assert(eps@.take(i + 1).last() == eps@[i as int]);
        match e.status {
            EpisodeStatus::Missing => {},
            _ => {
                let item = episode_item(show_title, season.number, e, art, ffmpeg, base);
                push_all(&mut out, chars_of(item.as_str()).as_slice());
            },
        }
        i = i + 1;
    }
    assert(eps@.take(eps@.len() as int) =~= eps@);
    string_of(out.as_slice())
}

// ---------------------------------------------------------------------------
// Browse answers
// ---------------------------------------------------------------------------

/// What a Browse of an object id reads from the library.
#[derive(Debug, Clone, Copy, PartialEq, Eq)]
pub enum BrowseTarget {
    /// The root: the single Shows folder.
    Root,
    /// The Shows folder: every show, by title.
    Shows,
    /// A show: its seasons.
    Show(i64),
    /// A season: its show (title and art) and the season's episodes.
    Season(i64),
    /// One episode: its show (title and art), season number and row.
    Episode(i64),
}

pub open spec fn target_of(kind: Seq<char>, id: i64) -> BrowseTarget {
    if kind == "root"@ {
        BrowseTarget::Root
    } else if kind == "shows"@ {
        BrowseTarget::Shows
    } else if kind == "show"@ {
        BrowseTarget::Show(id)
    } else if kind == "season"@ {
        BrowseTarget::Season(id)
    } else {
        BrowseTarget::Episode(id)
    }
}

fn parse_err(prefix: &str, object_id: &str) -> (r: crate::error::AppError)
    ensures
        r matches crate::error::AppError::Parse(m) && m@ == prefix@ + object_id@,
{
    let mut v = chars_of(prefix);
    push_str(&mut v, object_id);
    crate::error::AppError::Parse(string_of(v.as_slice()))
}

/// Which rows a Browse needs: a malformed or unknown object id is refused (the SOAP layer
/// answers UPnP 701), never read as an empty result.
pub fn browse_target(object_id: &str) -> (r: Result<BrowseTarget, crate::error::AppError>)
    ensures
        match crate::dlna::ids::decode_id_spec(object_id@) {
            None => r matches Err(crate::error::AppError::Parse(m)) && m@ == "bad object id: "@ + object_id@,
            Some((k, id)) => r == Ok::<BrowseTarget, crate::error::AppError>(target_of(k, id)),
        },
{
    match crate::dlna::ids::decode_id(object_id) {
        None => Err(parse_err("bad object id: ", object_id)),
        Some((kind, id)) => {
            let k = chars_of(kind.as_str());
            let k = k.as_slice();
            if eq_str(k, "root") {
                Ok(BrowseTarget::Root)
            } else if eq_str(k, "shows") {
                Ok(BrowseTarget::Shows)
            } else if eq_str(k, "show") {
                Ok(BrowseTarget::Show(id))
            } else if eq_str(k, "season") {
                Ok(BrowseTarget::Season(id))
            } else {
                Ok(BrowseTarget::Episode(id))
            }
        },
    }
}

/// A season as its Browse shows it.
pub struct BrowseSeason {
    pub show_title: String,
    pub art: Option<String>,
    pub season: SeasonRow,
}

/// An episode as its Browse shows it.
pub struct BrowseEpisode {
    pub show_title: String,
    pub season_no: u32,
    pub episode: EpisodeRow,
    pub art: Option<String>,
}

/// The rows read for a Browse target: for a season or an episode, `None` when the id names
/// nothing in the library.
pub enum BrowseRows {
    Root,
    Shows(Vec<BrowseShow>),
    Show(Vec<SeasonRow>),
    Season(Option<BrowseSeason>),
    Episode(Option<BrowseEpisode>),
}

/// Whether `rows` are what was read for `t`.
pub open spec fn rows_fit(t: BrowseTarget, rows: BrowseRows) -> bool {
    match (t, rows) {
        (BrowseTarget::Root, BrowseRows::Root) => true,
        (BrowseTarget::Shows, BrowseRows::Shows(_)) => true,
        (BrowseTarget::Show(_), BrowseRows::Show(_)) => true,
        (BrowseTarget::Season(id), BrowseRows::Season(s)) => s matches Some(b) ==> b.season.id == id,
        (BrowseTarget::Episode(id), BrowseRows::Episode(e)) => e matches Some(b) ==> b.episode.id == id,
        _ => false,
    }
}

/// The DIDL-Lite a Browse answers, or the message of the error it is refused with: an
/// unknown season lists nothing; an unknown or missing episode is an error.
pub open spec fn browse_spec(object_id: Seq<char>, rows: BrowseRows, ffmpeg: bool, base: Seq<char>) -> Result<Seq<char>, Seq<char>> {
    match crate::dlna::ids::decode_id_spec(object_id) {
        None => Err("bad object id: "@ + object_id),
        Some(_) => match rows {
            BrowseRows::Root => Ok(ROOT_LISTING@),
            BrowseRows::Shows(v) => Ok(shows_listing_spec(v@)),
            BrowseRows::Show(v) => Ok(seasons_listing_spec(object_id, v@)),
            BrowseRows::Season(None) => Ok(Seq::<char>::empty()),
            BrowseRows::Season(Some(b)) => Ok(season_items_spec(b.show_title@, b.season.number, b.season.episodes@,
                crate::parser::opt_str(b.art), ffmpeg, base)),
            BrowseRows::Episode(None) => Err("no such episode: "@ + object_id),
            BrowseRows::Episode(Some(b)) => if b.episode.status == EpisodeStatus::Missing {
                Err("episode missing: "@ + object_id)
            } else {
                Ok(episode_item_spec(b.show_title@, b.season_no, b.episode, crate::parser::opt_str(b.art), ffmpeg, base))
            },
        },
    }
}

fn as_text(a: &Option<String>) -> (r: Option<&str>)
    ensures
        crate::dlna::http::opt_text(r) == crate::parser::opt_str(*a),
{
    match a {
        Some(s) => Some(s.as_str()),
        None => None,
    }
}

/// Answer a Browse from the rows read for its target. With `ffmpeg`, every episode offers
/// the MP4 remux as a second resource; `base` makes media URLs absolute (empty keeps them
/// relative).
pub fn browse_with_opts(object_id: &str, rows: &BrowseRows, ffmpeg: bool, base: &str) -> (r: Result<String, crate::error::AppError>)
    requires
        crate::dlna::ids::decode_id_spec(object_id@) matches Some((k, id)) ==> rows_fit(target_of(k, id), *rows),
    ensures
        match browse_spec(object_id@, *rows, ffmpeg, base@) {
            Ok(s) => r matches Ok(x) && x@ == s,
            Err(m) => r matches Err(crate::error::AppError::Parse(e)) && e@ == m,
        },
{
    match browse_target(object_id) {
        Err(e) => return Err(e),
        Ok(_) => {},
    }
    match rows {
        BrowseRows::Root => Ok(string_of(chars_of(ROOT_LISTING).as_slice())),
        BrowseRows::Shows(v) => Ok(shows_listing(v.as_slice())),
        BrowseRows::Show(v) => Ok(seasons_listing(object_id, v.as_slice())),
        BrowseRows::Season(None) => Ok(String::new()),
        BrowseRows::Season(Some(b)) => Ok(season_items(b.show_title.as_str(), &b.season, as_text(&b.art), ffmpeg, base)),
        BrowseRows::Episode(None) => Err(parse_err("no such episode: ", object_id)),
        BrowseRows::Episode(Some(b)) => match b.episode.status {
            EpisodeStatus::Missing => Err(parse_err("episode missing: ", object_id)),
            _ => Ok(episode_item(b.show_title.as_str(), b.season_no, &b.episode, as_text(&b.art), ffmpeg, base)),
        },
    }
}

/// A Browse with direct play only and relative URLs.
pub fn browse(object_id: &str, rows: &BrowseRows) -> (r: Result<String, crate::error::AppError>)
    requires
        crate::dlna::ids::decode_id_spec(object_id@) matches Some((k, id)) ==> rows_fit(target_of(k, id), *rows),
    ensures
        match browse_spec(object_id@, *rows, false, Seq::<char>::empty()) {
            Ok(s) => r matches Ok(x) && x@ == s,
            Err(m) => r matches Err(crate::error::AppError::Parse(e)) && e@ == m,
        },
{
    proof {
        reveal_strlit("");
        assert(""@ =~= Seq::<char>::empty());
    }
    browse_with_opts(object_id, rows, false, "")
}

/// The model of `soap_fault(code, description)`.
pub open spec fn fault_model(code: nat, description: Seq<char>) -> ResponseModel {
    let body = encode_utf8(soap_text(crate::dlna::http::fault_text(code, description)));
    ResponseModel {
        status: 500,
        reason: "Internal Server Error"@,
        headers: text_headers("text/xml; charset=\"utf-8\""@, body.len()),
        body: BodyModel::Bytes(body),
    }
}

/// The object a Browse request names; a request without one is refused with UPnP 701.
pub fn browse_object_id(soap_body: &str) -> (r: Result<String, HttpResponse>)
    ensures
        match extract_tag_spec(soap_body@, "ObjectID"@) {
            Some(o) => r matches Ok(x) && x@ == o,
            None => r matches Err(e) && e.model() == fault_model(701, "No such object"@),
        },
{
    match crate::dlna::http::extract_tag(soap_body, "ObjectID") {
        Some(o) => Ok(o),
        None => Err(crate::dlna::http::soap_fault(701, "No such object")),
    }
}

/// What reading the rows of a Browse target came to.
pub enum BrowseLookup {
    /// The rows were read.
    Found(BrowseRows),
    /// The target names nothing the library holds.
    NotFound,
    /// The library could not be read.
    Failed,
}

/// Whether rows read for a target name something that can be browsed: a season or an
/// episode that does not exist, and a missing episode, cannot.
pub open spec fn rows_present(rows: BrowseRows) -> bool {
    match rows {
        BrowseRows::Season(None) => false,
        BrowseRows::Episode(None) => false,
        BrowseRows::Episode(Some(b)) => b.episode.status != EpisodeStatus::Missing,
        _ => true,
    }
}

/// The answer to a Browse of `object_id`: UPnP 701 for an id that names nothing (malformed,
/// unknown, or a missing episode), 501 when the library could not be read, else the page of
/// the listing the request asks for.
pub open spec fn browse_reply_spec(object_id: Seq<char>, soap_body: Seq<char>, lookup: BrowseLookup, ffmpeg: bool,
    base: Seq<char>) -> ResponseModel
{
    match crate::dlna::ids::decode_id_spec(object_id) {
        None => fault_model(701, "No such object"@),
        Some(_) => match lookup {
            BrowseLookup::NotFound => fault_model(701, "No such object"@),
            BrowseLookup::Failed => fault_model(501, "Action Failed"@),
            BrowseLookup::Found(rows) => if !rows_present(rows) {
                fault_model(701, "No such object"@)
            } else {
                match browse_spec(object_id, rows, ffmpeg, base) {
                    Ok(didl) => browse_page_spec(didl, soap_body),
                    Err(_) => fault_model(501, "Action Failed"@),
                }
            },
        },
    }
}

pub fn browse_reply(object_id: &str, soap_body: &str, lookup: &BrowseLookup, ffmpeg: bool, base: &str) -> (r: HttpResponse)
    requires
        lookup matches BrowseLookup::Found(rows) ==> (crate::dlna::ids::decode_id_spec(object_id@) matches Some((k, id))
            ==> rows_fit(target_of(k, id), *rows)),
    ensures
        r.model() == browse_reply_spec(object_id@, soap_body@, *lookup, ffmpeg, base@),
{
    if crate::dlna::ids::decode_id(object_id).is_none() {
        return crate::dlna::http::soap_fault(701, "No such object");
    }
    match lookup {
        BrowseLookup::NotFound => crate::dlna::http::soap_fault(701, "No such object"),
        BrowseLookup::Failed => crate::dlna::http::soap_fault(501, "Action Failed"),
        BrowseLookup::Found(rows) => {
            let present = match rows {
                BrowseRows::Season(None) => false,
                BrowseRows::Episode(None) => false,
                BrowseRows::Episode(Some(b)) => match b.episode.status {
                    EpisodeStatus::Missing => false,
                    _ => true,
                },
                _ => true,
            };
            if !present {
                return crate::dlna::http::soap_fault(701, "No such object");
            }
            match browse_with_opts(object_id, rows, ffmpeg, base) {
                Ok(didl) => browse_page(didl.as_str(), soap_body),
                Err(_) => crate::dlna::http::soap_fault(501, "Action Failed"),
            }
        },
    }
}

/// The note shown while the server advertises only a loopback address.
pub const LOOPBACK_WARNING: &'static str =
    "advertising a loopback address; renderers on the LAN cannot reach this server";

/// The error reported when an episode streamed to the end could not be marked played.
pub fn mark_failure_error(episode_id: i64, cause: &str) -> (r: crate::error::AppError)
    ensures
        r matches crate::error::AppError::Db(m) && m@ == "DLNA watched state not saved for episode "@
            + crate::text::signed_decimal(episode_id as int) + " (still shows unplayed): "@ + cause@,
{
    let mut v = chars_of("DLNA watched state not saved for episode ");
    crate::text::push_i64(&mut v, episode_id);
    push_str(&mut v, " (still shows unplayed): ");
    push_str(&mut v, cause);
    crate::error::AppError::Db(string_of(v.as_slice()))
}

/// The degraded-mode note after one more problem: problems are joined with `; `.
pub fn with_warning(current: Option<String>, msg: &str) -> (r: String)
    ensures
        r@ == (match current { Some(c) => c@ + "; "@ + msg@, None => msg@ }),
{
    match current {
        Some(c) => {
            let mut v = chars_of(c.as_str());
            push_str(&mut v, "; ");
            push_str(&mut v, msg);
            string_of(v.as_slice())
        },
        None => string_of(chars_of(msg).as_slice()),
    }
}

// ---------------------------------------------------------------------------
// Played marking
// ---------------------------------------------------------------------------

broadcast use vstd::std_specs::hash::group_hash_axioms;

/// Bytes streamed so far per episode, across connections: chunked renderers fetch in several
/// connections, none of which alone crosses the played threshold.
pub struct PlayedBytes {
    sent: HashMap<i64, u64>,
}

/// The running total after `sent` more bytes: saturating at `u64::MAX`.
pub open spec fn cumulative(prev: Option<u64>, sent: u64) -> nat {
    let p: nat = match prev { Some(v) => v as nat, None => 0 };
    if p + sent > u64::MAX { u64::MAX as nat } else { (p + sent) as nat }
}

impl PlayedBytes {
    /// The running total of each episode with bytes counted and not yet marked.
    pub closed spec fn totals(&self) -> Map<i64, u64> {
        self.sent@
    }

    pub fn new() -> (r: Self)
        ensures
            r.totals() == Map::<i64, u64>::empty(),
    {
        PlayedBytes { sent: HashMap::new() }
    }

    /// Fold one completed response's `sent` bytes into the episode's total, of a file of
    /// `total` bytes. Returns whether the episode is now to be marked played, in which case its
    /// total is dropped; a zero-length file never marks and is not counted; a zero total
    /// leaves nothing behind.
    pub fn note(&mut self, episode_id: i64, sent: u64, total: u64) -> (mark: bool)
        ensures
            total == 0 ==> !mark && final(self).totals() == old(self).totals(),
            total > 0 ==> {
                let prev = if old(self).totals().contains_key(episode_id) { Some(old(self).totals()[episode_id]) } else { None };
                let c = cumulative(prev, sent);
                &&& mark == crate::dlna::remux::should_mark_played_spec(c as int, total as int)
                &&& mark ==> final(self).totals() == old(self).totals().remove(episode_id)
                &&& !mark && c > 0 ==> final(self).totals() == old(self).totals().insert(episode_id, c as u64)
                &&& !mark && c == 0 ==> final(self).totals() == old(self).totals()
            },
    {
        if total == 0 {
            return false;
        }
        let prev: u64 = match self.sent.get(&episode_id) {
            Some(v) => *v,
            None => 0,
        };
        let c = prev.saturating_add(sent);
        if crate::dlna::remux::should_mark_played(c, total) {
            self.sent.remove(&episode_id);
            true
        } else {
            if c > 0 {
                self.sent.insert(episode_id, c);
            }
            false
        }
    }
}

/// A transfer split over two connections counts as one: the running total after `a` then `b`
/// bytes is their (saturated) sum.
pub proof fn lemma_split_transfer(a: u64, b: u64)
    ensures
        cumulative(Some(cumulative(None, a) as u64), b) == (if a + b > u64::MAX { u64::MAX as nat } else { (a + b) as nat }),
{
}

// ---------------------------------------------------------------------------
// Media requests
// ---------------------------------------------------------------------------

/// The response `HttpResponse::error` builds.
pub open spec fn error_model(status: u16, reason: Seq<char>, msg: Seq<char>) -> ResponseModel {
    ResponseModel {
        status,
        reason,
        headers: text_headers("text/plain; charset=\"utf-8\""@, encode_utf8(msg).len()),
        body: BodyModel::Bytes(encode_utf8(msg)),
    }
}

/// The episode a media object id names: unknown ids and ids of anything but an episode
/// answer 404.
pub fn media_episode_id(object_id: &str) -> (r: Result<i64, HttpResponse>)
    ensures
        match crate::dlna::ids::decode_id_spec(object_id@) {
            None => r matches Err(e) && e.model() == error_model(404, "Not Found"@, "unknown object id"@),
            Some((kind, id)) => if kind == "episode"@ {
                r == Ok::<i64, HttpResponse>(id)
            } else {
                r matches Err(e) && e.model() == error_model(404, "Not Found"@, "not a media object"@)
            },
        },
{
    match crate::dlna::ids::decode_id(object_id) {
        None => Err(HttpResponse::error(404, "Not Found", "unknown object id")),
        Some((kind, id)) => {
            if eq_str(chars_of(kind.as_str()).as_slice(), "episode") {
                Ok(id)
            } else {
                Err(HttpResponse::error(404, "Not Found", "not a media object"))
            }
        },
    }
}

/// What the episode lookup found decides whether it may stream: an unknown episode and a
/// missing row answer 404 (missing rows are never touched).
pub fn episode_gate(found: Option<EpisodeStatus>) -> (r: Result<(), HttpResponse>)
    ensures
        found is None ==> (r matches Err(e) && e.model() == error_model(404, "Not Found"@, "no such episode"@)),
        found == Some(EpisodeStatus::Missing) ==> (r matches Err(e) && e.model() == error_model(404, "Not Found"@, "episode missing"@)),
        found matches Some(st) && st != EpisodeStatus::Missing ==> r is Ok,
{
    match found {
        None => Err(HttpResponse::error(404, "Not Found", "no such episode")),
        Some(EpisodeStatus::Missing) => Err(HttpResponse::error(404, "Not Found", "episode missing")),
        Some(_) => Ok(()),
    }
}

/// A full or partial media answer is what counts toward played marking.
pub fn counts_as_played(status: u16) -> (r: bool)
    ensures
        r == (status == 200 || status == 206),
{
    status == 200 || status == 206
}

/// 503 with `Retry-After: 30`: the transcode pool is saturated or an encode timed out; the
/// renderer retries into a fresh encode rather than queueing behind minutes-long ones.
pub fn retry_later(msg: &str) -> (r: HttpResponse)
    ensures
        r.model().status == 503,
        r.model().reason == "Service Unavailable"@,
        r.model().headers == text_headers("text/plain; charset=\"utf-8\""@, encode_utf8(msg@).len())
            + seq![("Retry-After"@, "30"@)],
        r.model().body == BodyModel::Bytes(encode_utf8(msg@)),
{
    let mut r = HttpResponse::error(503, "Service Unavailable", msg);
    let k = string_of(chars_of("Retry-After").as_slice());
    let v = string_of(chars_of("30").as_slice());
    r.headers.push((k, v));
    proof {
        assert(crate::dlna::http::headers_view(r.headers@) =~= text_headers("text/plain; charset=\"utf-8\""@, encode_utf8(msg@).len())
            + seq![("Retry-After"@, "30"@)]);
    }
    r
}

} // verus!
