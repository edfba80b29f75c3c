//! Opaque object ids of the UPnP ContentDirectory tree (`kind:number`) and XML escaping.
use vstd::prelude::*;
use crate::text::{signed_decimal, parse_signed, first_index_of};

verus! {

pub open spec fn encode_id_spec(kind: Seq<char>, id: int) -> Seq<char> {
    kind + ":"@ + signed_decimal(id)
}

pub fn encode_id(kind: &str, id: i64) -> (r: String)
    ensures
        r@ == encode_id_spec(kind@, id as int),
{
    let mut v = crate::text::chars_of(kind);
    v.push(':');
    crate::text::push_i64(&mut v, id);
    proof {
        reveal_strlit(":");
    }
    assert(v@ =~= encode_id_spec(kind@, id as int));
    crate::text::string_of(v.as_slice())
}

/// The object kinds the tree knows.
pub open spec fn known_kind(k: Seq<char>) -> bool {
    k == "show"@ || k == "season"@ || k == "episode"@ || k == "root"@ || k == "shows"@
}

/// `kind:number` split at the first `:`, when the kind is known and the number is a plain
/// unsigned decimal that fits an `i64`.
pub open spec fn decode_id_spec(s: Seq<char>) -> Option<(Seq<char>, i64)> {
    match first_index_of(s, ':') {
        None => None,
        Some(i) => {
            let k = s.subrange(0, i);
            let v = s.subrange(i + 1, s.len() as int);
            if !known_kind(k) {
                None
            } else {
                match parse_signed(v, i64::MAX as nat) {
                    None => None,
                    Some(n) => if v.len() > 0 && (v[0] == '-' || v[0] == '+') {
                        None
                    } else {
                        Some((k, n as i64))
                    },
                }
            }
        },
    }
}

pub fn decode_id(s: &str) -> (r: Option<(String, i64)>)
    ensures
        match r {
            Some((k, n)) => decode_id_spec(s@) == Some((k@, n)),
            None => decode_id_spec(s@) is None,
        },
{
    let c = crate::text::chars_of(s);
    let i = match crate::text::find_char(c.as_slice(), ':') {
        Some(i) => i,
        None => return None,
    };
    assert(i < c.len());
    let k = crate::text::slice_chars(c.as_slice(), 0, i);
    let v = crate::text::slice_chars(c.as_slice(), i + 1, c.len());
    let known = crate::text::eq_str(k.as_slice(), "show") || crate::text::eq_str(k.as_slice(), "season")
        || crate::text::eq_str(k.as_slice(), "episode") || crate::text::eq_str(k.as_slice(), "root")
        || crate::text::eq_str(k.as_slice(), "shows");
    if !known {
        return None;
    }
    let n = match crate::text::parse_i64(v.as_slice()) {
        Some(n) => n,
        None => return None,
    };
    if v.len() > 0 && (v[0] == '-' || v[0] == '+') {
        return None;
    }
    Some((crate::text::string_of(k.as_slice()), n))
}

/// Decoding an encoded id gives back its kind and number, for every known kind and every
/// non-negative number.
pub proof fn lemma_id_round_trip(kind: Seq<char>, id: i64)
    requires
        known_kind(kind),
        id >= 0,
    ensures
        decode_id_spec(encode_id_spec(kind, id as int)) == Some((kind, id)),
{
    reveal_strlit(":");
    reveal_strlit("show");
    reveal_strlit("season");
    reveal_strlit("episode");
    reveal_strlit("root");
    reveal_strlit("shows");
    let s = encode_id_spec(kind, id as int);
    let k = kind.len() as int;
    assert(s[k] == ':');
    assert forall|j: int| 0 <= j < k implies s[j] != ':' by {
        assert(s[j] == kind[j]);
    }
    let w = choose|i: int| 0 <= i < s.len() && s[i] == ':' && forall|j: int| 0 <= j < i ==> s[j] != ':';
    if w < k {
        assert(s[w] != ':');
    }
    if w > k {
        assert(s[k] != ':');
    }
    assert(first_index_of(s, ':') == Some(k));
    assert(s.subrange(0, k) =~= kind);
    let v = s.subrange(k + 1, s.len() as int);
    assert(v =~= crate::text::decimal(id as nat));
    crate::text::lemma_decimal(id as nat);
    crate::text::lemma_parse_decimal(id as nat, i64::MAX as nat);
    assert(crate::text::is_digit(v[0]));
}

pub open spec fn escape_char(c: char) -> Seq<char> {
    if c == '<' { "&lt;"@ }
    else if c == '>' { "&gt;"@ }
    else if c == '&' { "&amp;"@ }
    else if c == '"' { "&quot;"@ }
    else if c == '\'' { "&apos;"@ }
    else { seq![c] }
}

/// XML text with the five special characters written as entities.
pub open spec fn xml_escape_spec(s: Seq<char>) -> Seq<char>
    decreases s.len(),
{
    if s.len() == 0 {
        Seq::empty()
    } else {
        xml_escape_spec(s.drop_last()) + escape_char(s.last())
    }
}

/// Whether `c` is one of the characters XML escaping rewrites.
pub open spec fn xml_special(c: char) -> bool {
    c == '<' || c == '>' || c == '&' || c == '"' || c == '\''
}

/// Entity references read back, in one left-to-right pass: `&lt;`, `&gt;`, `&quot;`,
/// `&apos;` and `&amp;` become the character they stand for; every other character stays.
pub open spec fn xml_unescape(s: Seq<char>) -> Seq<char>
    decreases s.len(),
{
    if s.len() == 0 {
        Seq::empty()
    } else if s.len() >= 4 && crate::text::is_prefix("&lt;"@, s) {
        seq!['<'] + xml_unescape(s.subrange(4, s.len() as int))
    } else if s.len() >= 4 && crate::text::is_prefix("&gt;"@, s) {
        seq!['>'] + xml_unescape(s.subrange(4, s.len() as int))
    } else if s.len() >= 6 && crate::text::is_prefix("&quot;"@, s) {
        seq!['"'] + xml_unescape(s.subrange(6, s.len() as int))
    } else if s.len() >= 6 && crate::text::is_prefix("&apos;"@, s) {
        seq!['\''] + xml_unescape(s.subrange(6, s.len() as int))
    } else if s.len() >= 5 && crate::text::is_prefix("&amp;"@, s) {
        seq!['&'] + xml_unescape(s.subrange(5, s.len() as int))
    } else {
        seq![s[0]] + xml_unescape(s.subrange(1, s.len() as int))
    }
}

proof fn lemma_escape_concat(a: Seq<char>, b: Seq<char>)
    ensures
        xml_escape_spec(a + b) == xml_escape_spec(a) + xml_escape_spec(b),
    decreases b.len(),
{
    if b.len() == 0 {
        assert(a + b =~= a);
        assert(xml_escape_spec(a) + xml_escape_spec(b) =~= xml_escape_spec(a));
    } else {
        lemma_escape_concat(a, b.drop_last());
        assert((a + b).drop_last() =~= a + b.drop_last());
        assert((a + b).last() == b.last());
    }
}

proof fn lemma_escape_char_plain(c: char)
    ensures
        forall|i: int| 0 <= i < escape_char(c).len() ==> !(#[trigger] escape_char(c)[i] == '<'
            || escape_char(c)[i] == '>' || escape_char(c)[i] == '"' || escape_char(c)[i] == '\''),
{
    reveal_strlit("&lt;");
    reveal_strlit("&gt;");
    reveal_strlit("&amp;");
    reveal_strlit("&quot;");
    reveal_strlit("&apos;");
}

/// Escaped text holds none of `<`, `>`, `"` and `'` (an `&` only starts an entity).
pub proof fn lemma_escape_leaves_no_markup(s: Seq<char>)
    ensures
        forall|i: int| 0 <= i < xml_escape_spec(s).len() ==> !(#[trigger] xml_escape_spec(s)[i] == '<'
            || xml_escape_spec(s)[i] == '>' || xml_escape_spec(s)[i] == '"' || xml_escape_spec(s)[i] == '\''),
    decreases s.len(),
{
    if s.len() > 0 {
        lemma_escape_leaves_no_markup(s.drop_last());
        lemma_escape_char_plain(s.last());
        let a = xml_escape_spec(s.drop_last());
        let b = escape_char(s.last());
        assert forall|i: int| 0 <= i < xml_escape_spec(s).len() implies !(#[trigger] xml_escape_spec(s)[i] == '<'
            || xml_escape_spec(s)[i] == '>' || xml_escape_spec(s)[i] == '"' || xml_escape_spec(s)[i] == '\'') by {
            if i < a.len() {
                assert(xml_escape_spec(s)[i] == a[i]);
            } else {
                assert(xml_escape_spec(s)[i] == b[i - a.len()]);
            }
        }
    }
}

/// Text without special characters is left as it is.
pub proof fn lemma_escape_plain_identity(s: Seq<char>)
    requires
        forall|i: int| 0 <= i < s.len() ==> !xml_special(#[trigger] s[i]),
    ensures
        xml_escape_spec(s) == s,
    decreases s.len(),
{
    if s.len() > 0 {
        lemma_escape_plain_identity(s.drop_last());
        assert(!xml_special(s[s.len() - 1]));
        assert(s.drop_last() + seq![s.last()] =~= s);
    }
}

/// Reading the entities back gives the original text: escaping loses nothing.
pub proof fn lemma_escape_round_trip(s: Seq<char>)
    ensures
        xml_unescape(xml_escape_spec(s)) == s,
    decreases s.len(),
{
    reveal_strlit("&lt;");
    reveal_strlit("&gt;");
    reveal_strlit("&amp;");
    reveal_strlit("&quot;");
    reveal_strlit("&apos;");
    if s.len() > 0 {
        let c = s[0];
        let rest = s.subrange(1, s.len() as int);
        assert(seq![c] + rest =~= s);
        lemma_escape_concat(seq![c], rest);
        assert(seq![c].drop_last() =~= Seq::<char>::empty());
        assert(seq![c].last() == c);
        assert(xml_escape_spec(Seq::<char>::empty()) == Seq::<char>::empty());
        assert(xml_escape_spec(seq![c]) =~= xml_escape_spec(seq![c].drop_last()) + escape_char(c));
        assert(xml_escape_spec(seq![c]) =~= escape_char(c));
        let e = escape_char(c);
        let er = xml_escape_spec(rest);
        let t = e + er;
        assert(xml_escape_spec(s) == t);
        lemma_escape_round_trip(rest);
        let n = e.len() as int;
        assert(t.subrange(n, t.len() as int) =~= er);
        assert(t.subrange(0, n) =~= e);
        if c == '<' {
            assert(xml_unescape(t) == seq!['<'] + xml_unescape(er));
        } else if c == '>' {
            assert(crate::text::is_prefix("&gt;"@, t));
            assert(!crate::text::is_prefix("&lt;"@, t)) by { assert(t[1] == 'g'); }
            assert(xml_unescape(t) == seq!['>'] + xml_unescape(er));
        } else if c == '"' {
            assert(crate::text::is_prefix("&quot;"@, t));
            assert(!crate::text::is_prefix("&lt;"@, t)) by { assert(t[1] == 'q'); }
            assert(!crate::text::is_prefix("&gt;"@, t)) by { assert(t[1] == 'q'); }
            assert(xml_unescape(t) == seq!['"'] + xml_unescape(er));
        } else if c == '\'' {
            assert(crate::text::is_prefix("&apos;"@, t));
            assert(!crate::text::is_prefix("&lt;"@, t)) by { assert(t[1] == 'a'); }
            assert(!crate::text::is_prefix("&gt;"@, t)) by { assert(t[1] == 'a'); }
            assert(!crate::text::is_prefix("&quot;"@, t)) by { assert(t[1] == 'a'); }
            assert(xml_unescape(t) == seq!['\''] + xml_unescape(er));
        } else if c == '&' {
            assert(crate::text::is_prefix("&amp;"@, t));
            assert(!crate::text::is_prefix("&lt;"@, t)) by { assert(t[1] == 'a'); }
            assert(!crate::text::is_prefix("&gt;"@, t)) by { assert(t[1] == 'a'); }
            assert(!crate::text::is_prefix("&quot;"@, t)) by { assert(t[1] == 'a'); }
            assert(!crate::text::is_prefix("&apos;"@, t)) by { assert(t[2] == 'm'); }
            assert(xml_unescape(t) == seq!['&'] + xml_unescape(er));
        } else {
            assert(t[0] == c);
            assert(!crate::text::is_prefix("&lt;"@, t)) by { assert(t[0] != '&'); }
            assert(!crate::text::is_prefix("&gt;"@, t)) by { assert(t[0] != '&'); }
            assert(!crate::text::is_prefix("&quot;"@, t)) by { assert(t[0] != '&'); }
            assert(!crate::text::is_prefix("&apos;"@, t)) by { assert(t[0] != '&'); }
            assert(!crate::text::is_prefix("&amp;"@, t)) by { assert(t[0] != '&'); }
            assert(xml_unescape(t) == seq![c] + xml_unescape(er));
        }
    }
}

pub fn push_escaped(out: &mut Vec<char>, s: &[char])
    ensures
        final(out)@ == old(out)@ + xml_escape_spec(s@),
{
    let mut i: usize = 0;
    while i < s.len()
        invariant
            i <= s@.len(),
            out@ == old(out)@ + xml_escape_spec(s@.subrange(0, i as int)),
        decreases s@.len() - i,
    {
        let c = s[i];
        let ghost before = out@;
        if c == '<' {
            crate::text::push_str(out, "&lt;");
        } else if c == '>' {
            crate::text::push_str(out, "&gt;");
        } else if c == '&' {
            crate::text::push_str(out, "&amp;");
        } else if c == '"' {
            crate::text::push_str(out, "&quot;");
        } else if c == '\'' {
            crate::text::push_str(out, "&apos;");
        } else {
            out.push(c);
            assert(out@ =~= before + seq![c]);
        }
        proof {
            let t = s@.subrange(0, i + 1);
            assert(t.drop_last() =~= s@.subrange(0, i as int));
            assert(t.last() == c);
            assert(out@ =~= old(out)@ + xml_escape_spec(t));
        }
        i = i + 1;
    }
    assert(s@.subrange(0, s@.len() as int) =~= s@);
}

pub fn xml_escape_chars(s: &[char]) -> (r: Vec<char>)
    ensures
        r@ == xml_escape_spec(s@),
{
    let mut v: Vec<char> = Vec::new();
    push_escaped(&mut v, s);
    assert(v@ =~= xml_escape_spec(s@));
    v
}

pub fn xml_escape(s: &str) -> (r: String)
    ensures
        r@ == xml_escape_spec(s@),
{
    let c = crate::text::chars_of(s);
    let e = xml_escape_chars(c.as_slice());
    crate::text::string_of(e.as_slice())
}

} // verus!
