//! Reading an HTTP request head: where it ends in the received bytes, its request line and
//! header fields, and how much body a POST may bring.
use vstd::prelude::*;
use crate::text::{trim, trim_start_by, ws, ascii_lower_seq, first_index_of, unicode_whitespace, is_whitespace,
    slice_chars, find_char, trim_chars, to_ascii_lower, string_of, parse_unsigned, parse_usize, chars_of, eq_str};
use crate::dlna::http::{header_view, headers_view};

verus! {

/// The most body a POST is read for.
pub const MAX_BODY: usize = 1048576;

/// The blank line that ends a request head.
pub open spec fn crlf2_at(b: Seq<u8>, i: int) -> bool {
    0 <= i && i + 4 <= b.len() && b[i] == 13u8 && b[i + 1] == 10u8 && b[i + 2] == 13u8 && b[i + 3] == 10u8
}

/// Where the head ends: just past the first `\r\n\r\n`, if the bytes hold one.
pub open spec fn head_end_spec(b: Seq<u8>) -> Option<int> {
    if exists|i: int| crlf2_at(b, i) {
        let i = choose|i: int| crlf2_at(b, i) && forall|j: int| 0 <= j < i ==> !crlf2_at(b, j);
        Some(i + 4)
    } else {
        None
    }
}

pub fn head_end(b: &[u8]) -> (r: Option<usize>)
    ensures
        match r {
            Some(e) => e >= 4 && crlf2_at(b@, e - 4) && forall|j: int| 0 <= j < e - 4 ==> !crlf2_at(b@, j),
            None => forall|i: int| !crlf2_at(b@, i),
        },
        r matches Some(e) ==> head_end_spec(b@) == Some(e as int),
        r is None ==> head_end_spec(b@) is None,
{
    let mut i: usize = 0;
    while b.len() >= 4 && i <= b.len() - 4
        invariant
            forall|j: int| 0 <= j < i ==> !crlf2_at(b@, j),
        decreases b@.len() - i,
    {
        if b[i] == 13u8 && b[i + 1] == 10u8 && b[i + 2] == 13u8 && b[i + 3] == 10u8 {
            proof {
                let w = choose|k: int| crlf2_at(b@, k) && forall|j: int| 0 <= j < k ==> !crlf2_at(b@, j);
                assert(crlf2_at(b@, i as int));
                if w < i { assert(!crlf2_at(b@, w)); }
                if w > i { assert(!crlf2_at(b@, i as int)); }
            }
            return Some(i + 4);
        }
        i = i + 1;
    }
    None
}

/// A line without the `\r` of a `\r\n` ending.
pub open spec fn strip_cr(l: Seq<char>) -> Seq<char> {
    if l.len() > 0 && l.last() == '\r' { l.drop_last() } else { l }
}

/// `str::lines`: split at `\n`, each line ended by `\n` losing a `\r` before it; no final
/// empty line after a trailing `\n`.
pub open spec fn split_lines(s: Seq<char>) -> Seq<Seq<char>>
    decreases s.len(),
{
    if s.len() == 0 {
        Seq::empty()
    } else {
        match first_index_of(s, '\n') {
            Some(i) => if 0 <= i < s.len() {
                seq![strip_cr(s.subrange(0, i))] + split_lines(s.subrange(i + 1, s.len() as int))
            } else {
                Seq::empty()
            },
            None => seq![s],
        }
    }
}

/// The leading run of `s` that holds no White_Space.
pub open spec fn take_word(s: Seq<char>) -> Seq<char>
    decreases s.len(),
{
    if s.len() == 0 || unicode_whitespace(s[0]) {
        Seq::empty()
    } else {
        seq![s[0]] + take_word(s.drop_first())
    }
}

/// The first word of `s` and what follows it (`split_whitespace`'s first item).
pub open spec fn first_word(s: Seq<char>) -> (Seq<char>, Seq<char>) {
    let t = trim_start_by(s, ws());
    let w = take_word(t);
    (w, t.subrange(w.len() as int, t.len() as int))
}

/// A header line read as `name: value`: the name trimmed and ASCII-lowercased, the value
/// trimmed; a line without `:` is no header.
pub open spec fn header_of(line: Seq<char>) -> Option<(Seq<char>, Seq<char>)> {
    match first_index_of(line, ':') {
        Some(i) => Some((ascii_lower_seq(trim(line.subrange(0, i))), trim(line.subrange(i + 1, line.len() as int)))),
        None => None,
    }
}

/// The header fields of `lines` from index `i` on, in order.
pub open spec fn headers_from(lines: Seq<Seq<char>>, i: int) -> Seq<(Seq<char>, Seq<char>)>
    decreases lines.len() - i,
{
    if i < 0 || i >= lines.len() {
        Seq::empty()
    } else {
        match header_of(lines[i]) {
            Some(h) => seq![h] + headers_from(lines, i + 1),
            None => headers_from(lines, i + 1),
        }
    }
}

/// A request head: method and target (the first two words of the first line, empty when
/// absent) and the header fields of the lines after it. Where a name occurs twice, the last
/// field wins.
pub struct RequestHead {
    pub method: String,
    pub target: String,
    pub headers: Vec<(String, String)>,
}

pub open spec fn head_method(head: Seq<char>) -> Seq<char> {
    let ls = split_lines(head);
    if ls.len() == 0 { Seq::empty() } else { first_word(ls[0]).0 }
}

pub open spec fn head_target(head: Seq<char>) -> Seq<char> {
    let ls = split_lines(head);
    if ls.len() == 0 { Seq::empty() } else { first_word(first_word(ls[0]).1).0 }
}

proof fn lemma_take_word(s: Seq<char>, k: int)
    requires
        0 <= k <= s.len(),
        forall|j: int| 0 <= j < k ==> !unicode_whitespace(s[j]),
        k == s.len() || unicode_whitespace(s[k]),
    ensures
        take_word(s) == s.subrange(0, k),
    decreases k,
{
    if k > 0 {
        lemma_take_word(s.drop_first(), k - 1);
        assert(seq![s[0]] + s.drop_first().subrange(0, k - 1) =~= s.subrange(0, k));
    } else {
        assert(s.subrange(0, 0) =~= Seq::<char>::empty());
    }
}

fn trim_start_ws(s: &[char]) -> (r: Vec<char>)
    ensures
        r@ == trim_start_by(s@, ws()),
{
    let mut i: usize = 0;
    while i < s.len() && is_whitespace(s[i])
        invariant
            i <= s@.len(),
            forall|j: int| 0 <= j < i ==> unicode_whitespace(s@[j]),
        decreases s@.len() - i,
    {
        i = i + 1;
    }
    proof {
        crate::text::lemma_trim_start_skip(s@, ws(), i as int);
        let rest = s@.subrange(i as int, s@.len() as int);
        assert(rest.len() == 0 || !unicode_whitespace(rest[0]));
        assert(trim_start_by(rest, ws()) == rest);
    }
    slice_chars(s, i, s.len())
}

fn first_word_exec(s: &[char]) -> (r: (Vec<char>, Vec<char>))
    ensures
        (r.0@, r.1@) == first_word(s@),
{
    let t = trim_start_ws(s);
    let mut k: usize = 0;
    while k < t.len() && !is_whitespace(t[k])
        invariant
            k <= t@.len(),
            forall|j: int| 0 <= j < k ==> !unicode_whitespace(t@[j]),
        decreases t@.len() - k,
    {
        k = k + 1;
    }
    proof {
        lemma_take_word(t@, k as int);
    }
    (slice_chars(t.as_slice(), 0, k), slice_chars(t.as_slice(), k, t.len()))
}

fn lower_ascii(s: &[char]) -> (r: Vec<char>)
    ensures
        r@ == ascii_lower_seq(s@),
{
    let mut v: Vec<char> = Vec::new();
    let mut i: usize = 0;
    while i < s.len()
        invariant
            i <= s@.len(),
            v@ == ascii_lower_seq(s@.subrange(0, i as int)),
        decreases s@.len() - i,
    {
        v.push(to_ascii_lower(s[i]));
        i = i + 1;
        assert(v@ =~= ascii_lower_seq(s@.subrange(0, i as int)));
    }
    assert(s@.subrange(0, s@.len() as int) =~= s@);
    v
}

fn header_exec(line: &[char]) -> (r: Option<(String, String)>)
    ensures
        match r {
            Some(h) => header_of(line@) == Some(header_view(h)),
            None => header_of(line@) is None,
        },
{
    match find_char(line, ':') {
        Some(i) => {
            let n = line.len();
            assert(i < n);
            let k = trim_chars(slice_chars(line, 0, i).as_slice());
            let v = trim_chars(slice_chars(line, i + 1, n).as_slice());
            Some((string_of(lower_ascii(k.as_slice()).as_slice()), string_of(v.as_slice())))
        },
        None => None,
    }
}

fn split_lines_exec(s: &[char]) -> (r: Vec<Vec<char>>)
    ensures
        r@.map_values(|l: Vec<char>| l@) == split_lines(s@),
{
    let mut out: Vec<Vec<char>> = Vec::new();
    let mut rest = slice_chars(s, 0, s.len());
    assert(rest@ =~= s@);
    loop
        invariant
            out@.map_values(|l: Vec<char>| l@) + split_lines(rest@) == split_lines(s@),
        decreases rest@.len(),
    {
        if rest.len() == 0 {
            assert(out@.map_values(|l: Vec<char>| l@) + split_lines(rest@) =~= out@.map_values(|l: Vec<char>| l@));
            return out;
        }
        match find_char(rest.as_slice(), '\n') {
            Some(i) => {
                let mut line = slice_chars(rest.as_slice(), 0, i);
                if line.len() > 0 && line[line.len() - 1] == '\r' {
                    line = slice_chars(line.as_slice(), 0, line.len() - 1);
                }
                let ghost old_out = out@.map_values(|l: Vec<char>| l@);
                let ghost l = line@;
                let n = rest.len();
                let next = slice_chars(rest.as_slice(), i + 1, n);
                proof {
                    assert(l == strip_cr(rest@.subrange(0, i as int)));
                    assert(split_lines(rest@) == seq![l] + split_lines(next@));
                }
                out.push(line);
                proof {
                    assert(out@.map_values(|l: Vec<char>| l@) =~= old_out.push(l));
                    assert(old_out.push(l) + split_lines(next@) =~= old_out + (seq![l] + split_lines(next@)));
                }
                rest = next;
            },
            None => {
                let ghost old_out = out@.map_values(|l: Vec<char>| l@);
                let ghost l = rest@;
                out.push(rest);
                proof {
                    assert(out@.map_values(|l: Vec<char>| l@) =~= old_out.push(l));
                    assert(split_lines(l) == seq![l]);
                    assert(old_out.push(l) =~= old_out + seq![l]);
                }
                return out;
            },
        }
    }
}

/// Read a request head (decoded text, through its blank line).
pub fn parse_head(head: &str) -> (r: RequestHead)
    ensures
        r.method@ == head_method(head@),
        r.target@ == head_target(head@),
        headers_view(r.headers@) == headers_from(split_lines(head@), 1),
{
    let hc = chars_of(head);
    let lines = split_lines_exec(hc.as_slice());
    let ghost ls = split_lines(head@);
    assert(lines@.len() == ls.len());
    if lines.len() == 0 {
        return RequestHead { method: String::new(), target: String::new(), headers: Vec::new() };
    }
    assert(lines@[0]@ == ls[0]);
    let (m, rest) = first_word_exec(lines[0].as_slice());
    let (t, _) = first_word_exec(rest.as_slice());
    let mut headers: Vec<(String, String)> = Vec::new();
    let mut i: usize = 1;
    while i < lines.len()
        invariant
            1 <= i <= lines@.len(),
            lines@.len() == ls.len(),
            forall|k: int| 0 <= k < ls.len() ==> (#[trigger] lines@[k])@ == ls[k],
            headers_view(headers@) + headers_from(ls, i as int) == headers_from(ls, 1),
        decreases lines@.len() - i,
    {
        let ghost before = headers_view(headers@);
        assert(lines@[i as int]@ == ls[i as int]);
        match header_exec(lines[i].as_slice()) {
            Some(h) => {
                headers.push(h);
                proof {
                    assert(headers_view(headers@) =~= before.push(header_view(h)));
                    assert(before.push(header_view(h)) + headers_from(ls, i + 1)
                        =~= before + (seq![header_view(h)] + headers_from(ls, i + 1)));
                }
            },
            None => {},
        }
        i = i + 1;
    }
    assert(headers_view(headers@) + headers_from(ls, i as int) =~= headers_view(headers@));
    RequestHead { method: string_of(m.as_slice()), target: string_of(t.as_slice()), headers }
}

/// The body a request is read for: for a POST, the `Content-Length` (0 when absent or not a
/// number), capped at 1 MiB; `None` for other methods, whose body is what arrived with the
/// head.
pub open spec fn body_limit_spec(method: Seq<char>, content_length: Option<Seq<char>>) -> Option<nat> {
    if method == "POST"@ {
        let want: nat = match content_length {
            Some(v) => match parse_unsigned(v, usize::MAX as nat) { Some(n) => n, None => 0 },
            None => 0,
        };
        Some(if want < MAX_BODY as nat { want } else { MAX_BODY as nat })
    } else {
        None
    }
}

pub fn body_limit(method: &str, content_length: Option<&str>) -> (r: Option<usize>)
    ensures
        match r {
            Some(n) => body_limit_spec(method@, crate::dlna::http::opt_text(content_length)) == Some(n as nat),
            None => body_limit_spec(method@, crate::dlna::http::opt_text(content_length)) is None,
        },
{
    if !eq_str(chars_of(method).as_slice(), "POST") {
        return None;
    }
    let want: usize = match content_length {
        Some(v) => match parse_usize(chars_of(v).as_slice()) {
            Some(n) => n,
            None => 0,
        },
        None => 0,
    };
    Some(if want < MAX_BODY { want } else { MAX_BODY })
}

} // verus!
