//! HTTP and SOAP pieces of the DLNA server: responses, byte ranges, envelopes.
use vstd::prelude::*;
use vstd::utf8::encode_utf8;
use crate::text::{trim, parse_unsigned, is_prefix, first_index_of, find_from, decimal};
use crate::dlna::ids::xml_escape_spec;

verus! {

/// `contentFeatures.dlna.org` value every media response carries.
pub const DLNA_CONTENT_FEATURES: &'static str =
    "DLNA.ORG_OP=01;DLNA.ORG_CI=0;DLNA.ORG_FLAGS=01700000000000000000000000000000";

pub enum Body {
    Bytes(Vec<u8>),
    FileRange { path: String, offset: u64, len: u64 },
}

pub struct HttpResponse {
    pub status: u16,
    pub reason: &'static str,
    pub headers: Vec<(String, String)>,
    pub body: Body,
}

pub enum BodyModel {
    Bytes(Seq<u8>),
    FileRange { path: Seq<char>, offset: u64, len: u64 },
}

pub struct ResponseModel {
    pub status: u16,
    pub reason: Seq<char>,
    pub headers: Seq<(Seq<char>, Seq<char>)>,
    pub body: BodyModel,
}

pub open spec fn header_view(h: (String, String)) -> (Seq<char>, Seq<char>) {
    (h.0@, h.1@)
}

pub open spec fn headers_view(hs: Seq<(String, String)>) -> Seq<(Seq<char>, Seq<char>)> {
    hs.map_values(|h: (String, String)| header_view(h))
}

impl HttpResponse {
    pub open spec fn model(&self) -> ResponseModel {
        ResponseModel {
            status: self.status,
            reason: self.reason@,
            headers: headers_view(self.headers@),
            body: match self.body {
                Body::Bytes(b) => BodyModel::Bytes(b@),
                Body::FileRange { path, offset, len } => BodyModel::FileRange { path: path@, offset, len },
            },
        }
    }
}

pub fn str_bytes(s: &str) -> (r: Vec<u8>)
    ensures
        r@ == encode_utf8(s@),
{
    vstd::slice::slice_to_vec(s.as_bytes())
}

pub fn chars_bytes(s: &[char]) -> (r: Vec<u8>)
    ensures
        r@ == encode_utf8(s@),
{
    let st = crate::text::string_of(s);
    str_bytes(st.as_str())
}

fn header(k: &str, v: &[char]) -> (r: (String, String))
    ensures
        header_view(r) == (k@, v@),
{
    (crate::text::string_of(crate::text::chars_of(k).as_slice()), crate::text::string_of(v))
}

fn header_str(k: &str, v: &str) -> (r: (String, String))
    ensures
        header_view(r) == (k@, v@),
{
    (crate::text::string_of(crate::text::chars_of(k).as_slice()), crate::text::string_of(crate::text::chars_of(v).as_slice()))
}

/// Headers of a plain in-memory response.
pub open spec fn text_headers(mime: Seq<char>, body_len: nat) -> Seq<(Seq<char>, Seq<char>)> {
    seq![("Content-Type"@, mime), ("Content-Length"@, decimal(body_len)), ("Connection"@, "close"@)]
}

impl HttpResponse {
    pub fn text(status: u16, reason: &'static str, mime: &str, body: Vec<u8>) -> (r: HttpResponse)
        ensures
            r.model() == (ResponseModel {
                status,
                reason: reason@,
                headers: text_headers(mime@, body@.len()),
                body: BodyModel::Bytes(body@),
            }),
    {
        let len = crate::text::u64_text(body.len() as u64);
        let mut headers: Vec<(String, String)> = Vec::new();
        headers.push(header_str("Content-Type", mime));
        headers.push(header("Content-Length", len.as_slice()));
        headers.push(header_str("Connection", "close"));
        let r = HttpResponse { status, reason, headers, body: Body::Bytes(body) };
        assert(headers_view(r.headers@) =~= text_headers(mime@, body@.len()));
        r
    }

    pub fn error(status: u16, reason: &'static str, msg: &str) -> (r: HttpResponse)
        ensures
            r.model() == (ResponseModel {
                status,
                reason: reason@,
                headers: text_headers("text/plain; charset=\"utf-8\""@, encode_utf8(msg@).len()),
                body: BodyModel::Bytes(encode_utf8(msg@)),
            }),
    {
        HttpResponse::text(status, reason, "text/plain; charset=\"utf-8\"", str_bytes(msg))
    }
}

// ---------------------------------------------------------------------------
// Byte ranges
// ---------------------------------------------------------------------------

pub open spec fn parse_u64_spec(s: Seq<char>) -> Option<u64> {
    match parse_unsigned(s, u64::MAX as nat) {
        Some(v) => Some(v as u64),
        None => None,
    }
}

/// `bytes=a-b` / `bytes=a-` / `bytes=-n` against a body of `total` bytes. `Ok(None)` means
/// the header is not a byte range and must be ignored; `Err` means nothing satisfies it.
pub open spec fn parse_range_spec(header: Seq<char>, total: u64) -> Result<Option<(u64, u64)>, ()> {
    let h = trim(header);
    if !is_prefix("bytes="@, h) {
        Ok(None)
    } else {
        let spec = h.subrange(6, h.len() as int);
        match first_index_of(spec, '-') {
            None => Err(()),
            Some(i) => {
                let start_s = spec.subrange(0, i);
                let end_s = spec.subrange(i + 1, spec.len() as int);
                if start_s.len() == 0 {
                    match parse_u64_spec(trim(end_s)) {
                        None => Err(()),
                        Some(n) => if n == 0 || total == 0 {
                            Err(())
                        } else {
                            let start: u64 = if n >= total { 0 } else { (total - n) as u64 };
                            Ok(Some((start, (total - 1) as u64)))
                        },
                    }
                } else {
                    match parse_u64_spec(trim(start_s)) {
                        None => Err(()),
                        Some(start) => if start >= total {
                            Err(())
                        } else if trim(end_s).len() == 0 {
                            Ok(Some((start, (total - 1) as u64)))
                        } else {
                            match parse_u64_spec(trim(end_s)) {
                                None => Err(()),
                                Some(end) => if end < start {
                                    Err(())
                                } else {
                                    Ok(Some((start, if end < total - 1 { end } else { (total - 1) as u64 })))
                                },
                            }
                        },
                    }
                }
            },
        }
    }
}

pub fn parse_range(header: &str, total: u64) -> (r: Result<Option<(u64, u64)>, ()>)
    ensures
        r == parse_range_spec(header@, total),
{
    let hc = crate::text::chars_of(header);
    let h = crate::text::trim_chars(hc.as_slice());
    if !crate::text::starts_with_str(h.as_slice(), "bytes=") {
        return Ok(None);
    }
    proof { reveal_strlit("bytes="); }
    let spec = crate::text::slice_chars(h.as_slice(), 6, h.len());
    let i = match crate::text::find_char(spec.as_slice(), '-') {
        Some(i) => i,
        None => return Err(()),
    };
    assert(i < spec.len());
    let start_s = crate::text::slice_chars(spec.as_slice(), 0, i);
    let end_s = crate::text::slice_chars(spec.as_slice(), i + 1, spec.len());
    let end_t = crate::text::trim_chars(end_s.as_slice());
    if start_s.len() == 0 {
        let n = match crate::text::parse_u64(end_t.as_slice()) {
            Some(n) => n,
            None => return Err(()),
        };
        if n == 0 || total == 0 {
            return Err(());
        }
        let start = total.saturating_sub(n);
        return Ok(Some((start, total - 1)));
    }
    let start_t = crate::text::trim_chars(start_s.as_slice());
    let start = match crate::text::parse_u64(start_t.as_slice()) {
        Some(n) => n,
        None => return Err(()),
    };
    if start >= total {
        return Err(());
    }
    if end_t.len() == 0 {
        return Ok(Some((start, total - 1)));
    }
    let end = match crate::text::parse_u64(end_t.as_slice()) {
        Some(n) => n,
        None => return Err(()),
    };
    if end < start {
        return Err(());
    }
    Ok(Some((start, if end < total - 1 { end } else { total - 1 })))
}

/// What a Range header resolves to. `Empty` is the zero-length rule (an empty 200 whatever
/// was asked); `Denied` carries the total for the `bytes */total` 416 body.
#[derive(PartialEq, Eq, Debug)]
pub enum RangePlan {
    Empty,
    Span(u64, u64),
    Denied(u64),
}

pub open spec fn plan_range_spec(total: u64, range: Option<Seq<char>>) -> RangePlan {
    if total == 0 {
        RangePlan::Empty
    } else {
        match range {
            Some(h) => match parse_range_spec(h, total) {
                Ok(None) => RangePlan::Span(0, (total - 1) as u64),
                Ok(Some((s, e))) => RangePlan::Span(s, e),
                Err(()) => RangePlan::Denied(total),
            },
            None => RangePlan::Span(0, (total - 1) as u64),
        }
    }
}

pub open spec fn opt_text(o: Option<&str>) -> Option<Seq<char>> {
    match o {
        Some(s) => Some(s@),
        None => None,
    }
}

pub fn plan_range(total: u64, range: Option<&str>) -> (r: RangePlan)
    ensures
        r == plan_range_spec(total, opt_text(range)),
        r matches RangePlan::Span(s, e) ==> s <= e < total,
{
    if total == 0 {
        return RangePlan::Empty;
    }
    match range {
        Some(h) => match parse_range(h, total) {
            Ok(None) => RangePlan::Span(0, total - 1),
            Ok(Some((start, end))) => RangePlan::Span(start, end),
            Err(()) => RangePlan::Denied(total),
        },
        None => RangePlan::Span(0, total - 1),
    }
}

/// Every satisfiable range lies inside the body: start <= end < total.
pub proof fn lemma_range_in_bounds(header: Seq<char>, total: u64)
    ensures
        parse_range_spec(header, total) matches Ok(Some((s, e))) ==> s <= e && e < total,
{
}

pub fn range_denied(total: u64) -> (r: HttpResponse)
    ensures
        r.model() == (ResponseModel {
            status: 416,
            reason: "Range Not Satisfiable"@,
            headers: text_headers("text/plain; charset=\"utf-8\""@, encode_utf8("range unsatisfiable"@).len())
                .push(("Content-Range"@, "bytes */"@ + decimal(total as nat))),
            body: BodyModel::Bytes(encode_utf8("range unsatisfiable"@)),
        }),
{
    let mut r = HttpResponse::error(416, "Range Not Satisfiable", "range unsatisfiable");
    let mut v = crate::text::chars_of("bytes */");
    crate::text::push_u64(&mut v, total);
    r.headers.push(header("Content-Range", v.as_slice()));
    assert(headers_view(r.headers@) =~= text_headers("text/plain; charset=\"utf-8\""@,
        encode_utf8("range unsatisfiable"@).len()).push(("Content-Range"@, "bytes */"@ + decimal(total as nat))));
    r
}

/// The DLNA streaming headers every media response carries.
pub open spec fn stream_headers(mime: Seq<char>, base: Seq<(Seq<char>, Seq<char>)>) -> Seq<(Seq<char>, Seq<char>)> {
    base + seq![
        ("Content-Type"@, mime),
        ("Accept-Ranges"@, "bytes"@),
        ("transferMode.dlna.org"@, "Streaming"@),
        ("contentFeatures.dlna.org"@, DLNA_CONTENT_FEATURES@),
        ("Connection"@, "close"@)
    ]
}

pub fn dlna_stream_headers(mime: &str, base_headers: &[(String, String)]) -> (r: Vec<(String, String)>)
    ensures
        headers_view(r@) == stream_headers(mime@, headers_view(base_headers@)),
{
    let mut headers: Vec<(String, String)> = Vec::new();
    let mut i: usize = 0;
    while i < base_headers.len()
        invariant
            i <= base_headers@.len(),
            headers@.len() == i,
            headers_view(headers@) == headers_view(base_headers@).subrange(0, i as int),
        decreases base_headers@.len() - i,
    {
        let (k, v) = &base_headers[i];
        let kc = crate::text::chars_of(k.as_str());
        let vc = crate::text::chars_of(v.as_str());
        let ghost before = headers@;
        headers.push((crate::text::string_of(kc.as_slice()), crate::text::string_of(vc.as_slice())));
        assert(header_view(headers@[i as int]) == header_view(base_headers@[i as int]));
        assert(headers_view(headers@).subrange(0, i as int) =~= headers_view(before));
        assert(headers_view(headers@) =~= headers_view(base_headers@).subrange(0, i + 1));
        i = i + 1;
    }
    assert(headers_view(base_headers@).subrange(0, base_headers@.len() as int) =~= headers_view(base_headers@));
    headers.push(header_str("Content-Type", mime));
    headers.push(header_str("Accept-Ranges", "bytes"));
    headers.push(header_str("transferMode.dlna.org", "Streaming"));
    headers.push(header_str("contentFeatures.dlna.org", DLNA_CONTENT_FEATURES));
    headers.push(header_str("Connection", "close"));
    assert(headers_view(headers@) =~= stream_headers(mime@, headers_view(base_headers@)));
    headers
}

/// Status and headers of a media response over `total` bytes with an optional Range header
/// (the body is the caller's: in memory or a file range).
pub open spec fn media_status(total: u64, range: Option<Seq<char>>) -> u16 {
    match plan_range_spec(total, range) {
        RangePlan::Empty => 200,
        RangePlan::Denied(_) => 416,
        RangePlan::Span(_, _) => if range is Some { 206 } else { 200 },
    }
}

pub open spec fn media_headers(mime: Seq<char>, base: Seq<(Seq<char>, Seq<char>)>, total: u64, range: Option<Seq<char>>) -> Seq<(Seq<char>, Seq<char>)> {
    let h = stream_headers(mime, base);
    match plan_range_spec(total, range) {
        RangePlan::Empty => h.push(("Content-Length"@, "0"@)),
        RangePlan::Denied(t) => text_headers("text/plain; charset=\"utf-8\""@, encode_utf8("range unsatisfiable"@).len())
            .push(("Content-Range"@, "bytes */"@ + decimal(t as nat))),
        RangePlan::Span(s, e) => if range is Some {
            h.push(("Content-Length"@, decimal((e - s + 1) as nat)))
                .push(("Content-Range"@, "bytes "@ + decimal(s as nat) + "-"@ + decimal(e as nat) + "/"@ + decimal(total as nat)))
        } else {
            h.push(("Content-Length"@, decimal(total as nat)))
        },
    }
}

/// Which bytes of the body a media response sends: `None` for the 416, else `(offset, len)`.
pub open spec fn media_extent(total: u64, range: Option<Seq<char>>) -> Option<(u64, u64)> {
    match plan_range_spec(total, range) {
        RangePlan::Empty => Some((0, 0)),
        RangePlan::Denied(_) => None,
        RangePlan::Span(s, e) => if range is Some { Some((s, (e - s + 1) as u64)) } else { Some((0, total)) },
    }
}

/// The status, headers and extent of a media response; the 416 response is returned whole.
fn media_head(mime: &str, total: u64, range: Option<&str>, base_headers: &[(String, String)])
    -> (r: Result<(u16, &'static str, Vec<(String, String)>, u64, u64), HttpResponse>)
    ensures
        match r {
            Ok((status, reason, hs, off, len)) => {
                &&& status == media_status(total, opt_text(range))
                &&& headers_view(hs@) == media_headers(mime@, headers_view(base_headers@), total, opt_text(range))
                &&& media_extent(total, opt_text(range)) == Some((off, len))
                &&& reason@ == (if status == 206 { "Partial Content"@ } else { "OK"@ })
            },
            Err(resp) => {
                &&& media_extent(total, opt_text(range)) is None
                &&& resp.model().status == media_status(total, opt_text(range))
                &&& resp.model().headers == media_headers(mime@, headers_view(base_headers@), total, opt_text(range))
                &&& resp.model().reason == "Range Not Satisfiable"@
                &&& resp.model().body == BodyModel::Bytes(encode_utf8("range unsatisfiable"@))
            },
        },
{
    let mut headers = dlna_stream_headers(mime, base_headers);
    match plan_range(total, range) {
        RangePlan::Empty => {
            headers.push(header_str("Content-Length", "0"));
            Ok((200, "OK", headers, 0, 0))
        },
        RangePlan::Denied(t) => Err(range_denied(t)),
        RangePlan::Span(start, end) => {
            let len = end - start + 1;
            if range.is_some() {
                let lt = crate::text::u64_text(len);
                headers.push(header("Content-Length", lt.as_slice()));
                let mut cr = crate::text::chars_of("bytes ");
                crate::text::push_u64(&mut cr, start);
                cr.push('-');
                crate::text::push_u64(&mut cr, end);
                cr.push('/');
                crate::text::push_u64(&mut cr, total);
                proof {
                    reveal_strlit("-");
                    reveal_strlit("/");
                }
                assert(cr@ =~= "bytes "@ + decimal(start as nat) + "-"@ + decimal(end as nat) + "/"@ + decimal(total as nat));
                headers.push(header("Content-Range", cr.as_slice()));
                return Ok((206, "Partial Content", headers, start, len));
            }
            let tt = crate::text::u64_text(total);
            headers.push(header("Content-Length", tt.as_slice()));
            Ok((200, "OK", headers, 0, total))
        },
    }
}

/// In-memory media response: DLNA headers, range plan, bytes copied out of `data`.
pub fn serve_bytes_response(data: &[u8], mime: &str, range: Option<&str>, base_headers: &[(String, String)]) -> (r: HttpResponse)
    ensures
        r.model().status == media_status(data@.len() as u64, opt_text(range)),
        r.model().headers == media_headers(mime@, headers_view(base_headers@), data@.len() as u64, opt_text(range)),
        r.model().body == (match media_extent(data@.len() as u64, opt_text(range)) {
            Some((off, len)) => BodyModel::Bytes(data@.subrange(off as int, off + len)),
            None => BodyModel::Bytes(encode_utf8("range unsatisfiable"@)),
        }),
{
    let total = data.len() as u64;
    match media_head(mime, total, range, base_headers) {
        Ok((status, reason, headers, off, len)) => {
            let bytes = copy_bytes(data, off as usize, (off + len) as usize);
            HttpResponse { status, reason, headers, body: Body::Bytes(bytes) }
        },
        Err(resp) => resp,
    }
}

fn copy_bytes(data: &[u8], from: usize, to: usize) -> (r: Vec<u8>)
    requires
        from <= to <= data@.len(),
    ensures
        r@ == data@.subrange(from as int, to as int),
{
    let mut v: Vec<u8> = Vec::new();
    let mut i = from;
    while i < to
        invariant
            from <= i <= to <= data@.len(),
            v@ == data@.subrange(from as int, i as int),
        decreases to - i,
    {
        v.push(data[i]);
        assert(data@.subrange(from as int, i + 1) =~= data@.subrange(from as int, i as int).push(data@[i as int]));
        i = i + 1;
    }
    v
}

/// Whether opening the file to serve succeeded (the caller tries it).
pub enum FileOpen {
    Opened,
    NotFound,
    Failed,
}

/// File-serving core for direct-play and remux paths: DLNA headers plus byte-range support
/// over a file of `total` bytes. A file that vanished answers 404, one that cannot be
/// opened 500 — never a status promising bytes that are gone.
pub fn serve_file_response(path: &str, opened: FileOpen, mime: &str, total: u64, range: Option<&str>, base_headers: &[(String, String)]) -> (r: HttpResponse)
    ensures
        opened is NotFound ==> r.model().status == 404,
        opened is Failed ==> r.model().status == 500,
        opened is Opened ==> {
            &&& r.model().status == media_status(total, opt_text(range))
            &&& r.model().headers == media_headers(mime@, headers_view(base_headers@), total, opt_text(range))
            &&& r.model().body == (match media_extent(total, opt_text(range)) {
                Some((off, len)) => if total == 0 { BodyModel::Bytes(Seq::empty()) } else {
                    BodyModel::FileRange { path: path@, offset: off, len }
                },
                None => BodyModel::Bytes(encode_utf8("range unsatisfiable"@)),
            })
        },
{
    match opened {
        FileOpen::NotFound => return HttpResponse::error(404, "Not Found", "file gone"),
        FileOpen::Failed => return HttpResponse::error(500, "Internal Server Error", "cannot open file"),
        FileOpen::Opened => {},
    }
    match media_head(mime, total, range, base_headers) {
        Ok((status, reason, headers, off, len)) => {
            if total == 0 {
                let e: Vec<u8> = Vec::new();
                assert(e@ =~= Seq::<u8>::empty());
                return HttpResponse { status, reason, headers, body: Body::Bytes(e) };
            }
            let p = crate::text::string_of(crate::text::chars_of(path).as_slice());
            HttpResponse { status, reason, headers, body: Body::FileRange { path: p, offset: off, len } }
        },
        Err(resp) => resp,
    }
}

// ---------------------------------------------------------------------------
// SOAP
// ---------------------------------------------------------------------------

/// The text between `<tag ...>` and `</tag>` (first occurrences), trimmed.
pub open spec fn extract_tag_spec(body: Seq<char>, tag: Seq<char>) -> Option<Seq<char>> {
    let open = "<"@ + tag;
    match find_from(body, open, 0) {
        None => None,
        Some(start) => {
            let after = body.subrange(start + open.len(), body.len() as int);
            match first_index_of(after, '>') {
                None => None,
                Some(gt) => {
                    let rest = after.subrange(gt + 1, after.len() as int);
                    match find_from(rest, "</"@ + tag + ">"@, 0) {
                        None => None,
                        Some(end) => Some(trim(rest.subrange(0, end))),
                    }
                },
            }
        },
    }
}

pub fn extract_tag(body: &str, tag: &str) -> (r: Option<String>)
    ensures
        crate::parser::opt_str(r) == extract_tag_spec(body@, tag@),
{
    let b = crate::text::chars_of(body);
    let mut open = crate::text::chars_of("<");
    crate::text::push_str(&mut open, tag);
    let start = match crate::text::find_sub_from(b.as_slice(), open.as_slice(), 0) {
        Some(s) => s,
        None => return None,
    };
    assert(start + open@.len() <= b@.len());
    assert(b@.len() == b.len() && open@.len() == open.len());
    let after = crate::text::slice_chars(b.as_slice(), start + open.len(), b.len());
    let gt = match crate::text::find_char(after.as_slice(), '>') {
        Some(g) => g,
        None => return None,
    };
    assert(gt < after.len());
    let rest = crate::text::slice_chars(after.as_slice(), gt + 1, after.len());
    let mut close = crate::text::chars_of("</");
    crate::text::push_str(&mut close, tag);
    crate::text::push_str(&mut close, ">");
    let end = match crate::text::find_sub_from(rest.as_slice(), close.as_slice(), 0) {
        Some(e) => e,
        None => return None,
    };
    let inner = crate::text::slice_chars(rest.as_slice(), 0, end);
    let t = crate::text::trim_chars(inner.as_slice());
    Some(crate::text::string_of(t.as_slice()))
}

pub open spec fn soap_text(inner: Seq<char>) -> Seq<char> {
    "<?xml version=\"1.0\"?>\r\n<s:Envelope xmlns:s=\"http://schemas.xmlsoap.org/soap/envelope/\" s:encodingStyle=\"http://schemas.xmlsoap.org/soap/encoding/\"><s:Body>"@
        + inner + "</s:Body></s:Envelope>"@
}

pub fn soap_envelope_chars(inner: &[char]) -> (r: Vec<u8>)
    ensures
        r@ == encode_utf8(soap_text(inner@)),
{
    let mut v = crate::text::chars_of("<?xml version=\"1.0\"?>\r\n<s:Envelope xmlns:s=\"http://schemas.xmlsoap.org/soap/envelope/\" s:encodingStyle=\"http://schemas.xmlsoap.org/soap/encoding/\"><s:Body>");
    crate::text::push_all(&mut v, inner);
    crate::text::push_str(&mut v, "</s:Body></s:Envelope>");
    assert(v@ =~= soap_text(inner@));
    chars_bytes(v.as_slice())
}

pub fn soap_envelope(inner: &str) -> (r: Vec<u8>)
    ensures
        r@ == encode_utf8(soap_text(inner@)),
{
    let c = crate::text::chars_of(inner);
    soap_envelope_chars(c.as_slice())
}

/// Whether a top-level DIDL element starts at `i`.
pub open spec fn didl_item_at(s: Seq<char>, i: int) -> bool {
    (i + 6 <= s.len() && s.subrange(i, i + 6) == "<item "@)
        || (i + 11 <= s.len() && s.subrange(i, i + 11) == "<container "@)
}

/// Positions from `i` on where a top-level element starts, in document order.
pub open spec fn didl_starts(s: Seq<char>, i: int) -> Seq<int>
    decreases s.len() - i,
{
    if i < 0 || i >= s.len() {
        Seq::empty()
    } else if didl_item_at(s, i) {
        seq![i] + didl_starts(s, i + 1)
    } else {
        didl_starts(s, i + 1)
    }
}

/// The DIDL payload split at each element start: element `k` runs to the next start.
pub open spec fn split_didl_spec(s: Seq<char>) -> Seq<Seq<char>> {
    let st = didl_starts(s, 0);
    Seq::new(st.len(), |k: int| s.subrange(st[k], if k + 1 < st.len() { st[k + 1] } else { s.len() as int }))
}

proof fn lemma_didl_starts_bounds(s: Seq<char>, i: int)
    requires
        0 <= i,
    ensures
        forall|k: int| 0 <= k < didl_starts(s, i).len() ==> i <= #[trigger] didl_starts(s, i)[k] < s.len(),
        forall|k: int| 0 <= k < didl_starts(s, i).len() - 1 ==> #[trigger] didl_starts(s, i)[k] < didl_starts(s, i)[k + 1],
    decreases s.len() - i,
{
    if i < s.len() {
        lemma_didl_starts_bounds(s, i + 1);
        let rest = didl_starts(s, i + 1);
        if didl_item_at(s, i) {
            let all = seq![i] + rest;
            assert forall|k: int| 0 <= k < all.len() - 1 implies #[trigger] all[k] < all[k + 1] by {
                if k > 0 {
                    assert(all[k] == rest[k - 1]);
                    assert(all[k + 1] == rest[k]);
                } else {
                    assert(all[1] == rest[0]);
                }
            }
        }
    }
}

fn is_item_at(s: &[char], i: usize) -> (r: bool)
    requires
        i < s@.len(),
    ensures
        r == didl_item_at(s@, i as int),
{
    let a = crate::text::str_chars("<item ");
    let b = crate::text::str_chars("<container ");
    proof {
        reveal_strlit("<item ");
        reveal_strlit("<container ");
    }
    let first = if s.len() - i >= 6 {
        let piece = crate::text::slice_chars(s, i, i + 6);
        crate::text::seq_eq(piece.as_slice(), a.as_slice())
    } else {
        false
    };
    let second = if s.len() - i >= 11 {
        let piece = crate::text::slice_chars(s, i, i + 11);
        crate::text::seq_eq(piece.as_slice(), b.as_slice())
    } else {
        false
    };
    first || second
}

/// Split a DIDL payload into its top-level `<item>` / `<container>` elements in document
/// order, so a Browse page can slice them without re-querying.
pub fn split_didl_items(didl: &str) -> (r: Vec<String>)
    ensures
        r@.len() == split_didl_spec(didl@).len(),
        forall|k: int| 0 <= k < r@.len() ==> (#[trigger] r@[k])@ == split_didl_spec(didl@)[k],
{
    let s = crate::text::chars_of(didl);
    let mut starts: Vec<usize> = Vec::new();
    let mut i: usize = 0;
    proof {
        lemma_didl_starts_bounds(s@, 0);
    }
    while i < s.len()
        invariant
            i <= s@.len(),
            s@ == didl@,
            starts@.len() + didl_starts(s@, i as int).len() == didl_starts(s@, 0).len(),
            forall|k: int| 0 <= k < starts@.len() ==> starts@[k] as int == #[trigger] didl_starts(s@, 0)[k],
            forall|k: int| 0 <= k < didl_starts(s@, i as int).len() ==>
                #[trigger] didl_starts(s@, i as int)[k] == didl_starts(s@, 0)[starts@.len() + k],
        decreases s@.len() - i,
    {
        let hit = is_item_at(s.as_slice(), i);
        let ghost rest = didl_starts(s@, i + 1);
        if hit {
            proof {
                let cur = didl_starts(s@, i as int);
                assert(cur == seq![i as int] + rest);
                assert(cur[0] == i as int);
                assert forall|k: int| 0 <= k < rest.len() implies #[trigger] rest[k] == didl_starts(s@, 0)[starts@.len() + 1 + k] by {
                    assert(rest[k] == cur[k + 1]);
                }
            }
            starts.push(i);
        }
        i = i + 1;
    }
    let ghost st = didl_starts(s@, 0);
    assert(starts@.len() == st.len());
    let mut out: Vec<String> = Vec::new();
    let mut k: usize = 0;
    while k < starts.len()
        invariant
            k <= starts@.len(),
            s@ == didl@,
            st == didl_starts(s@, 0),
            starts@.len() == st.len(),
            forall|j: int| 0 <= j < starts@.len() ==> starts@[j] as int == #[trigger] st[j],
            forall|j: int| 0 <= j < st.len() ==> 0 <= #[trigger] st[j] < s@.len(),
            forall|j: int| 0 <= j < st.len() - 1 ==> #[trigger] st[j] < st[j + 1],
            out@.len() == k,
            forall|j: int| 0 <= j < k ==> (#[trigger] out@[j])@ == split_didl_spec(didl@)[j],
        decreases starts@.len() - k,
    {
        let a = starts[k];
        let b = if k + 1 < starts.len() { starts[k + 1] } else { s.len() };
        assert(st[k as int] == a as int);
        if k + 1 < starts.len() {
            assert(st[k + 1] == b as int);
            assert(st[k as int] < st[k + 1]);
        }
        let piece = crate::text::slice_chars(s.as_slice(), a, b);
        out.push(crate::text::string_of(piece.as_slice()));
        k = k + 1;
    }
    out
}

pub open spec fn browse_response_text(didl: Seq<char>, returned: nat, total: nat) -> Seq<char> {
    "<u:BrowseResponse xmlns:u=\"urn:schemas-upnp-org:service:ContentDirectory:1\"><Result>"@
        + xml_escape_spec(didl) + "</Result><NumberReturned>"@ + decimal(returned)
        + "</NumberReturned><TotalMatches>"@ + decimal(total)
        + "</TotalMatches><UpdateID>1</UpdateID></u:BrowseResponse>"@
}

pub fn browse_response(didl: &str, returned: usize, total: usize) -> (r: Vec<u8>)
    ensures
        r@ == encode_utf8(soap_text(browse_response_text(didl@, returned as nat, total as nat))),
{
    let mut v = crate::text::chars_of("<u:BrowseResponse xmlns:u=\"urn:schemas-upnp-org:service:ContentDirectory:1\"><Result>");
    let d = crate::text::chars_of(didl);
    crate::dlna::ids::push_escaped(&mut v, d.as_slice());
    crate::text::push_str(&mut v, "</Result><NumberReturned>");
    crate::text::push_u64(&mut v, returned as u64);
    crate::text::push_str(&mut v, "</NumberReturned><TotalMatches>");
    crate::text::push_u64(&mut v, total as u64);
    crate::text::push_str(&mut v, "</TotalMatches><UpdateID>1</UpdateID></u:BrowseResponse>");
    assert(v@ =~= browse_response_text(didl@, returned as nat, total as nat));
    soap_envelope_chars(v.as_slice())
}

pub open spec fn fault_text(code: nat, description: Seq<char>) -> Seq<char> {
    "<s:Fault><faultcode>s:Client</faultcode><faultstring>UPnPError</faultstring><detail><UPnPError xmlns=\"urn:schemas-upnp-org:control-1-0\"><errorCode>"@
        + decimal(code) + "</errorCode><errorDescription>"@ + description
        + "</errorDescription></UPnPError></detail></s:Fault>"@
}

/// A UPnP SOAP fault (HTTP 500) carrying `code` and `description`.
pub fn soap_fault(code: u16, description: &str) -> (r: HttpResponse)
    ensures
        r.model() == (ResponseModel {
            status: 500,
            reason: "Internal Server Error"@,
            headers: text_headers("text/xml; charset=\"utf-8\""@, encode_utf8(soap_text(fault_text(code as nat, description@))).len()),
            body: BodyModel::Bytes(encode_utf8(soap_text(fault_text(code as nat, description@)))),
        }),
{
    let mut v = crate::text::chars_of("<s:Fault><faultcode>s:Client</faultcode><faultstring>UPnPError</faultstring><detail><UPnPError xmlns=\"urn:schemas-upnp-org:control-1-0\"><errorCode>");
    crate::text::push_u64(&mut v, code as u64);
    crate::text::push_str(&mut v, "</errorCode><errorDescription>");
    crate::text::push_str(&mut v, description);
    crate::text::push_str(&mut v, "</errorDescription></UPnPError></detail></s:Fault>");
    assert(v@ =~= fault_text(code as nat, description@));
    let body = soap_envelope_chars(v.as_slice());
    HttpResponse::text(500, "Internal Server Error", "text/xml; charset=\"utf-8\"", body)
}

/// Every MIME `mime_for` can put in a `<res>`, so a renderer never sees a served type
/// missing from the protocol list.
pub const SOURCE_PROTOCOL_INFO: &'static str = "http-get:*:video/x-matroska:DLNA.ORG_OP=01,http-get:*:video/mp4:DLNA.ORG_OP=01,http-get:*:video/x-msvideo:DLNA.ORG_OP=01,http-get:*:video/quicktime:DLNA.ORG_OP=01,http-get:*:video/webm:DLNA.ORG_OP=01,http-get:*:video/mp2t:DLNA.ORG_OP=01,http-get:*:application/octet-stream:DLNA.ORG_OP=01";

pub open spec fn protocol_info_text() -> Seq<char> {
    "<u:GetProtocolInfoResponse xmlns:u=\"urn:schemas-upnp-org:service:ConnectionManager:1\"><Source>"@
        + SOURCE_PROTOCOL_INFO@ + "</Source><Sink></Sink></u:GetProtocolInfoResponse>"@
}

pub fn serve_protocol_info() -> (r: HttpResponse)
    ensures
        r.model() == (ResponseModel {
            status: 200,
            reason: "OK"@,
            headers: text_headers("text/xml; charset=\"utf-8\""@, encode_utf8(soap_text(protocol_info_text())).len()),
            body: BodyModel::Bytes(encode_utf8(soap_text(protocol_info_text()))),
        }),
{
    let mut v = crate::text::chars_of("<u:GetProtocolInfoResponse xmlns:u=\"urn:schemas-upnp-org:service:ConnectionManager:1\"><Source>");
    crate::text::push_str(&mut v, SOURCE_PROTOCOL_INFO);
    crate::text::push_str(&mut v, "</Source><Sink></Sink></u:GetProtocolInfoResponse>");
    assert(v@ =~= protocol_info_text());
    let body = soap_envelope_chars(v.as_slice());
    HttpResponse::text(200, "OK", "text/xml; charset=\"utf-8\"", body)
}

/// The header lines of a response, each `name: value` ended by CRLF.
pub open spec fn header_lines(hs: Seq<(Seq<char>, Seq<char>)>) -> Seq<char>
    decreases hs.len(),
{
    if hs.len() == 0 {
        Seq::empty()
    } else {
        header_lines(hs.drop_last()) + hs.last().0 + ": "@ + hs.last().1 + "\r\n"@
    }
}

/// The status line and headers of a response, through the blank line.
pub open spec fn head_text(m: ResponseModel) -> Seq<char> {
    "HTTP/1.1 "@ + decimal(m.status as nat) + " "@ + m.reason + "\r\n"@ + header_lines(m.headers) + "\r\n"@
}

/// Write out a response's status line and headers.
pub fn response_head(r: &HttpResponse) -> (s: String)
    ensures
        s@ == head_text(r.model()),
{
    let mut v = crate::text::chars_of("HTTP/1.1 ");
    crate::text::push_u64(&mut v, r.status as u64);
    crate::text::push_str(&mut v, " ");
    crate::text::push_str(&mut v, r.reason);
    crate::text::push_str(&mut v, "\r\n");
    let ghost start = v@;
    let ghost hs = headers_view(r.headers@);
    let mut i: usize = 0;
    while i < r.headers.len()
        invariant
            i <= r.headers@.len(),
            hs == headers_view(r.headers@),
            v@ == start + header_lines(hs.subrange(0, i as int)),
        decreases r.headers@.len() - i,
    {
        let ghost before = v@;
        crate::text::push_str(&mut v, r.headers[i].0.as_str());
        crate::text::push_str(&mut v, ": ");
        crate::text::push_str(&mut v, r.headers[i].1.as_str());
        crate::text::push_str(&mut v, "\r\n");
        proof {
            let t = hs.subrange(0, i + 1);
            assert(t.drop_last() =~= hs.subrange(0, i as int));
            assert(t.last() == header_view(r.headers@[i as int]));
            assert(v@ =~= start + header_lines(t));
        }
        i = i + 1;
    }
    crate::text::push_str(&mut v, "\r\n");
    proof {
        assert(hs.subrange(0, hs.len() as int) =~= hs);
        assert(v@ =~= head_text(r.model()));
    }
    crate::text::string_of(v.as_slice())
}

} // verus!
