//! Character-level building blocks shared by every parser and formatter of the
//! library: strings are handled as sequences of `char`, numbers are read and
//! written in decimal the way the standard library does it.
use vstd::prelude::*;
use vstd::slice::slice_subrange;

verus! {

// ---------------------------------------------------------------------------
// Characters
// ---------------------------------------------------------------------------

pub open spec fn is_digit(c: char) -> bool {
    '0' <= c && c <= '9'
}

pub open spec fn digit_val(c: char) -> nat {
    (c as int - '0' as int) as nat
}

pub open spec fn digit_char(d: nat) -> char
    recommends
        d < 10,
{
    ((d + '0' as int) as u32) as char
}

pub open spec fn is_ascii_upper(c: char) -> bool {
    'A' <= c && c <= 'Z'
}

pub open spec fn is_ascii_lower(c: char) -> bool {
    'a' <= c && c <= 'z'
}

pub open spec fn is_ascii_alnum(c: char) -> bool {
    is_digit(c) || is_ascii_upper(c) || is_ascii_lower(c)
}

/// `char::to_ascii_lowercase`: ASCII capitals map to small letters, all else is kept.
pub open spec fn ascii_lower(c: char) -> char {
    if is_ascii_upper(c) {
        ((c as u32) + 32) as char
    } else {
        c
    }
}

pub open spec fn ascii_lower_seq(s: Seq<char>) -> Seq<char> {
    Seq::new(s.len(), |i: int| ascii_lower(s[i]))
}

pub fn is_ascii_digit(c: char) -> (r: bool)
    ensures
        r == is_digit(c),
{
    '0' <= c && c <= '9'
}

pub fn to_ascii_lower(c: char) -> (r: char)
    ensures
        r == ascii_lower(c),
{
    if 'A' <= c && c <= 'Z' {
        let u: u8 = (c as u8) + 32;
        u as char
    } else {
        c
    }
}

pub fn is_ascii_alphanumeric(c: char) -> (r: bool)
    ensures
        r == is_ascii_alnum(c),
{
    ('0' <= c && c <= '9') || ('A' <= c && c <= 'Z') || ('a' <= c && c <= 'z')
}

/// Whether `c` has the Unicode White_Space property, as `char::is_whitespace` decides:
/// U+0009 to U+000D, the space, U+0085, U+00A0, U+1680, U+2000 to U+200A, U+2028, U+2029,
/// U+202F, U+205F and U+3000.
pub open spec fn unicode_whitespace(c: char) -> bool {
    let u = c as u32;
    (0x9 <= u && u <= 0xD) || u == 0x20 || u == 0x85 || u == 0xA0 || u == 0x1680
        || (0x2000 <= u && u <= 0x200A) || u == 0x2028 || u == 0x2029 || u == 0x202F || u == 0x205F
        || u == 0x3000
}

/// Whether `c` is alphabetic or numeric in the Unicode sense (`char::is_alphanumeric`).
pub uninterp spec fn unicode_alphanumeric(c: char) -> bool;

/// `char::is_whitespace`: the White_Space property.
pub fn is_whitespace(c: char) -> (r: bool)
    ensures
        r == unicode_whitespace(c),
{
    let u = c as u32;
    (0x9 <= u && u <= 0xD) || u == 0x20 || u == 0x85 || u == 0xA0 || u == 0x1680
        || (0x2000 <= u && u <= 0x200A) || u == 0x2028 || u == 0x2029 || u == 0x202F || u == 0x205F
        || u == 0x3000
}

/// Calls `char::is_alphanumeric`. The contract names the result; std documents that
/// ASCII letters and digits have the property and the other ASCII characters do not.
#[verifier::external_body]
pub(crate) fn is_alphanumeric(c: char) -> (r: bool)
    ensures
        r == unicode_alphanumeric(c),
        (c as u32) < 128 ==> (r == is_ascii_alnum(c)),
{
    c.is_alphanumeric()
}

/// Lower-case form of a string as `str::to_lowercase` computes it (Unicode case mapping).
pub uninterp spec fn unicode_lowercase(s: Seq<char>) -> Seq<char>;

/// Calls `str::to_lowercase`. The contract names the result; std documents that the
/// mapping of an ASCII-only string is its ASCII lowercase.
#[verifier::external_body]
pub(crate) fn to_lowercase(s: &[char]) -> (r: Vec<char>)
    ensures
        r@ == unicode_lowercase(s@),
        (forall|i: int| 0 <= i < s@.len() ==> (s@[i] as u32) < 128) ==> r@ == ascii_lower_seq(s@),
{
    let st: String = s.iter().collect();
    st.to_lowercase().chars().collect()
}

// ---------------------------------------------------------------------------
// Strings as char sequences
// ---------------------------------------------------------------------------

pub fn chars_of(s: &str) -> (r: Vec<char>)
    ensures
        r@ == s@,
{
    let mut v: Vec<char> = Vec::new();
    for c in it: s.chars()
        invariant
            v@ == it.seq().take(it.index() as int),
    {
        v.push(c);
    }
    v
}

/// Calls `String::push`.
#[verifier::external_body]
pub(crate) fn push_char(s: &mut String, c: char)
    ensures
        final(s)@ == old(s)@.push(c),
{
    s.push(c);
}

pub fn string_of(v: &[char]) -> (r: String)
    ensures
        r@ == v@,
{
    let mut s = String::new();
    let mut i: usize = 0;
    while i < v.len()
        invariant
            i <= v@.len(),
            s@ == v@.take(i as int),
        decreases v@.len() - i,
    {
        push_char(&mut s, v[i]);
        assert(v@.take(i + 1) == v@.take(i as int).push(v@[i as int]));
        i = i + 1;
    }
    assert(v@.take(v@.len() as int) == v@);
    s
}

pub fn push_all(out: &mut Vec<char>, s: &[char])
    ensures
        final(out)@ == old(out)@ + s@,
{
    let mut i: usize = 0;
    while i < s.len()
        invariant
            i <= s@.len(),
            out@ == old(out)@ + s@.take(i as int),
        decreases s@.len() - i,
    {
        out.push(s[i]);
        assert(s@.take(i + 1) == s@.take(i as int).push(s@[i as int]));
        i = i + 1;
    }
    assert(s@.take(s@.len() as int) == s@);
}

pub fn push_str(out: &mut Vec<char>, s: &str)
    ensures
        final(out)@ == old(out)@ + s@,
{
    let cs = chars_of(s);
    push_all(out, cs.as_slice());
}

pub fn str_chars(s: &str) -> (r: Vec<char>)
    ensures
        r@ == s@,
{
    chars_of(s)
}

pub fn slice_chars(s: &[char], from: usize, to: usize) -> (r: Vec<char>)
    requires
        from <= to <= s@.len(),
    ensures
        r@ == s@.subrange(from as int, to as int),
{
    let mut v: Vec<char> = Vec::new();
    let mut i: usize = from;
    while i < to
        invariant
            from <= i <= to,
            to <= s@.len(),
            v@ == s@.subrange(from as int, i as int),
        decreases to - i,
    {
        v.push(s[i]);
        assert(s@.subrange(from as int, i + 1) == s@.subrange(from as int, i as int).push(s@[i as int]));
        i = i + 1;
    }
    v
}

pub fn seq_eq(a: &[char], b: &[char]) -> (r: bool)
    ensures
        r == (a@ == b@),
{
    if a.len() != b.len() {
        return false;
    }
    let mut i: usize = 0;
    while i < a.len()
        invariant
            a@.len() == b@.len(),
            i <= a@.len(),
            forall|j: int| 0 <= j < i ==> a@[j] == b@[j],
        decreases a@.len() - i,
    {
        if a[i] != b[i] {
            return false;
        }
        i = i + 1;
    }
    assert(a@ =~= b@);
    true
}

pub fn eq_str(a: &[char], b: &str) -> (r: bool)
    ensures
        r == (a@ == b@),
{
    let bc = chars_of(b);
    seq_eq(a, bc.as_slice())
}

pub open spec fn is_prefix(p: Seq<char>, s: Seq<char>) -> bool {
    p.len() <= s.len() && s.subrange(0, p.len() as int) == p
}

pub open spec fn is_suffix(p: Seq<char>, s: Seq<char>) -> bool {
    p.len() <= s.len() && s.subrange(s.len() - p.len(), s.len() as int) == p
}

pub fn starts_with(s: &[char], p: &[char]) -> (r: bool)
    ensures
        r == is_prefix(p@, s@),
{
    if p.len() > s.len() {
        return false;
    }
    let mut i: usize = 0;
    while i < p.len()
        invariant
            p@.len() <= s@.len(),
            i <= p@.len(),
            forall|j: int| 0 <= j < i ==> s@[j] == p@[j],
        decreases p@.len() - i,
    {
        if s[i] != p[i] {
            assert(s@.subrange(0, p@.len() as int)[i as int] != p@[i as int]);
            return false;
        }
        i = i + 1;
    }
    assert(s@.subrange(0, p@.len() as int) =~= p@);
    true
}

pub fn starts_with_str(s: &[char], p: &str) -> (r: bool)
    ensures
        r == is_prefix(p@, s@),
{
    let pc = chars_of(p);
    starts_with(s, pc.as_slice())
}

pub fn ends_with(s: &[char], p: &[char]) -> (r: bool)
    ensures
        r == is_suffix(p@, s@),
{
    if p.len() > s.len() {
        return false;
    }
    let off: usize = s.len() - p.len();
    let mut i: usize = 0;
    while i < p.len()
        invariant
            p@.len() <= s@.len(),
            off == s@.len() - p@.len(),
            s@.len() == s.len(),
            i <= p@.len(),
            forall|j: int| 0 <= j < i ==> s@[off + j] == p@[j],
        decreases p@.len() - i,
    {
        if s[off + i] != p[i] {
            assert(s@.subrange(off as int, s@.len() as int)[i as int] != p@[i as int]);
            return false;
        }
        i = i + 1;
    }
    assert(s@.subrange(off as int, s@.len() as int) =~= p@);
    true
}

pub fn ends_with_str(s: &[char], p: &str) -> (r: bool)
    ensures
        r == is_suffix(p@, s@),
{
    let pc = chars_of(p);
    ends_with(s, pc.as_slice())
}

/// Index of the first occurrence of `c`, as `str::find` with a char pattern (in chars).
pub open spec fn first_index_of(s: Seq<char>, c: char) -> Option<int> {
    if exists|i: int| 0 <= i < s.len() && s[i] == c {
        Some(choose|i: int| 0 <= i < s.len() && s[i] == c && forall|j: int| 0 <= j < i ==> s[j] != c)
    } else {
        None
    }
}

pub fn find_char(s: &[char], c: char) -> (r: Option<usize>)
    ensures
        match r {
            Some(i) => i < s@.len() && s@[i as int] == c && forall|j: int| 0 <= j < i ==> s@[j] != c,
            None => forall|j: int| 0 <= j < s@.len() ==> s@[j] != c,
        },
        r == (match first_index_of(s@, c) { Some(i) => Some(i as usize), None => None::<usize> }),
{
    let mut i: usize = 0;
    while i < s.len()
        invariant
            i <= s@.len(),
            forall|j: int| 0 <= j < i ==> s@[j] != c,
        decreases s@.len() - i,
    {
        if s[i] == c {
            proof {
                let w = choose|k: int| 0 <= k < s@.len() && s@[k] == c && forall|j: int| 0 <= j < k ==> s@[j] != c;
                assert(0 <= i < s@.len() && s@[i as int] == c && forall|j: int| 0 <= j < i ==> s@[j] != c);
                if w < i { assert(s@[w] != c); }
                if w > i { assert(s@[i as int] != c); }
            }
            return Some(i);
        }
        i = i + 1;
    }
    None
}

pub fn contains_char(s: &[char], c: char) -> (r: bool)
    ensures
        r == s@.contains(c),
{
    match find_char(s, c) {
        Some(i) => {
            assert(s@[i as int] == c);
            true
        },
        None => false,
    }
}

/// Index of the last occurrence of `c` (`str::rfind` with a char).
pub open spec fn last_index_of(s: Seq<char>, c: char) -> Option<int>
    decreases s.len(),
{
    if s.len() == 0 {
        None
    } else if s.last() == c {
        Some(s.len() - 1)
    } else {
        last_index_of(s.drop_last(), c)
    }
}

pub fn rfind_char(s: &[char], c: char) -> (r: Option<usize>)
    ensures
        r matches Some(i) ==> last_index_of(s@, c) == Some(i as int) && i < s@.len(),
        r is None ==> last_index_of(s@, c) is None,
{
    let mut k: usize = s.len();
    assert(s@.subrange(0, k as int) =~= s@);
    while k > 0
        invariant
            k <= s@.len(),
            last_index_of(s@, c) == last_index_of(s@.subrange(0, k as int), c),
        decreases k,
    {
        assert(s@.subrange(0, k as int).drop_last() =~= s@.subrange(0, k - 1));
        if s[k - 1] == c {
            return Some(k - 1);
        }
        k = k - 1;
    }
    None
}

// ---------------------------------------------------------------------------
// Trimming
// ---------------------------------------------------------------------------

/// `s` without its leading characters that satisfy `p`.
pub open spec fn trim_start_by(s: Seq<char>, p: spec_fn(char) -> bool) -> Seq<char>
    decreases s.len(),
{
    if s.len() > 0 && p(s[0]) {
        trim_start_by(s.drop_first(), p)
    } else {
        s
    }
}

/// `s` without its trailing characters that satisfy `p`.
pub open spec fn trim_end_by(s: Seq<char>, p: spec_fn(char) -> bool) -> Seq<char>
    decreases s.len(),
{
    if s.len() > 0 && p(s.last()) {
        trim_end_by(s.drop_last(), p)
    } else {
        s
    }
}

/// `str::trim_matches(p)`.
pub open spec fn trim_by(s: Seq<char>, p: spec_fn(char) -> bool) -> Seq<char> {
    trim_end_by(trim_start_by(s, p), p)
}

/// Holds no `_` and no `.`.
pub open spec fn no_separator(s: Seq<char>) -> bool {
    forall|i: int| 0 <= i < s.len() ==> #[trigger] s[i] != '_' && s[i] != '.'
}

proof fn lemma_trim_start_within(s: Seq<char>, p: spec_fn(char) -> bool)
    ensures
        no_separator(s) ==> no_separator(trim_start_by(s, p)),
    decreases s.len(),
{
    if s.len() > 0 && p(s[0]) {
        lemma_trim_start_within(s.drop_first(), p);
        if no_separator(s) {
            assert forall|i: int| 0 <= i < s.drop_first().len() implies #[trigger] s.drop_first()[i] != '_'
                && s.drop_first()[i] != '.' by {
                assert(s.drop_first()[i] == s[i + 1]);
            }
        }
    }
}

proof fn lemma_trim_end_within(s: Seq<char>, p: spec_fn(char) -> bool)
    ensures
        no_separator(s) ==> no_separator(trim_end_by(s, p)),
    decreases s.len(),
{
    if s.len() > 0 && p(s.last()) {
        lemma_trim_end_within(s.drop_last(), p);
        if no_separator(s) {
            assert forall|i: int| 0 <= i < s.drop_last().len() implies #[trigger] s.drop_last()[i] != '_'
                && s.drop_last()[i] != '.' by {
                assert(s.drop_last()[i] == s[i]);
            }
        }
    }
}

/// Trimming only removes characters, so text without separators keeps none.
pub proof fn lemma_trim_by_no_separator(s: Seq<char>, p: spec_fn(char) -> bool)
    ensures
        no_separator(s) ==> no_separator(trim_by(s, p)),
{
    lemma_trim_start_within(s, p);
    lemma_trim_end_within(trim_start_by(s, p), p);
}

pub open spec fn ws() -> spec_fn(char) -> bool {
    |c: char| unicode_whitespace(c)
}

/// `str::trim`: leading and trailing White_Space removed.
pub open spec fn trim(s: Seq<char>) -> Seq<char> {
    trim_by(s, ws())
}

pub proof fn lemma_trim_start_skip(s: Seq<char>, p: spec_fn(char) -> bool, i: int)
    requires
        0 <= i <= s.len(),
        forall|j: int| 0 <= j < i ==> p(s[j]),
    ensures
        trim_start_by(s, p) == trim_start_by(s.subrange(i, s.len() as int), p),
    decreases i,
{
    if i > 0 {
        assert(s.drop_first().subrange(i - 1, s.drop_first().len() as int) =~= s.subrange(i, s.len() as int));
        assert forall|j: int| 0 <= j < i - 1 implies p(s.drop_first()[j]) by {
            assert(s.drop_first()[j] == s[j + 1]);
        }
        lemma_trim_start_skip(s.drop_first(), p, i - 1);
    } else {
        assert(s.subrange(0, s.len() as int) =~= s);
    }
}

pub proof fn lemma_trim_end_take(s: Seq<char>, p: spec_fn(char) -> bool, k: int)
    requires
        0 <= k <= s.len(),
        forall|j: int| k <= j < s.len() ==> p(s[j]),
    ensures
        trim_end_by(s, p) == trim_end_by(s.subrange(0, k), p),
    decreases s.len() - k,
{
    if k < s.len() {
        assert(s.drop_last().subrange(0, k) =~= s.subrange(0, k));
        lemma_trim_end_take(s.drop_last(), p, k);
    } else {
        assert(s.subrange(0, k) =~= s);
    }
}

/// Given the first index `i` not satisfying `p` and the end `k` of the kept part, the
/// trimmed text is `s[i..k]`.
pub proof fn lemma_trim_range(s: Seq<char>, p: spec_fn(char) -> bool, i: int, k: int)
    requires
        0 <= i <= k <= s.len(),
        forall|j: int| 0 <= j < i ==> p(s[j]),
        i < s.len() ==> !p(s[i]),
        forall|j: int| k <= j < s.len() ==> p(s[j]),
        k > i ==> !p(s[k - 1]),
    ensures
        trim_by(s, p) == s.subrange(i, k),
{
    lemma_trim_start_skip(s, p, i);
    let t = s.subrange(i, s.len() as int);
    assert(trim_start_by(t, p) == t);
    assert forall|j: int| k - i <= j < t.len() implies p(t[j]) by {
        assert(t[j] == s[j + i]);
    }
    lemma_trim_end_take(t, p, k - i);
    assert(t.subrange(0, k - i) =~= s.subrange(i, k));
    if k > i {
        assert(s.subrange(i, k).last() == s[k - 1]);
    }
}

pub fn trim_chars(s: &[char]) -> (r: Vec<char>)
    ensures
        r@ == trim(s@),
{
    let mut i: usize = 0;
    while i < s.len() && is_whitespace(s[i])
        invariant
            i <= s@.len(),
            forall|j: int| 0 <= j < i ==> unicode_whitespace(s@[j]),
        decreases s@.len() - i,
    {
        i = i + 1;
    }
    let mut k: usize = s.len();
    while k > i && is_whitespace(s[k - 1])
        invariant
            i <= k <= s@.len(),
            forall|j: int| k <= j < s@.len() ==> unicode_whitespace(s@[j]),
        decreases k,
    {
        k = k - 1;
    }
    proof {
        lemma_trim_range(s@, ws(), i as int, k as int);
    }
    slice_chars(s, i, k)
}

pub open spec fn dash_or_space() -> spec_fn(char) -> bool {
    |c: char| c == '-' || c == ' '
}

/// `str::trim_matches(|c| c == '-' || c == ' ')`.
pub fn trim_dash_space(s: &[char]) -> (r: Vec<char>)
    ensures
        r@ == trim_by(s@, dash_or_space()),
{
    let mut i: usize = 0;
    while i < s.len() && (s[i] == '-' || s[i] == ' ')
        invariant
            i <= s@.len(),
            forall|j: int| 0 <= j < i ==> (dash_or_space())(s@[j]),
        decreases s@.len() - i,
    {
        i = i + 1;
    }
    let mut k: usize = s.len();
    while k > i && (s[k - 1] == '-' || s[k - 1] == ' ')
        invariant
            i <= k <= s@.len(),
            forall|j: int| k <= j < s@.len() ==> (dash_or_space())(s@[j]),
        decreases k,
    {
        k = k - 1;
    }
    proof {
        lemma_trim_range(s@, dash_or_space(), i as int, k as int);
    }
    slice_chars(s, i, k)
}

/// `s` with every character for which `from` holds replaced by `to`.
pub open spec fn map_chars(s: Seq<char>, from: spec_fn(char) -> bool, to: char) -> Seq<char> {
    Seq::new(s.len(), |i: int| if from(s[i]) { to } else { s[i] })
}

pub open spec fn underscore_or_dot() -> spec_fn(char) -> bool {
    |c: char| c == '_' || c == '.'
}

pub open spec fn underscore() -> spec_fn(char) -> bool {
    |c: char| c == '_'
}

/// `s.replace(['_', '.'], " ")`.
pub fn spaces_for_separators(s: &[char]) -> (r: Vec<char>)
    ensures
        r@ == map_chars(s@, underscore_or_dot(), ' '),
{
    let mut v: Vec<char> = Vec::new();
    let mut i: usize = 0;
    while i < s.len()
        invariant
            i <= s@.len(),
            v@ == map_chars(s@, underscore_or_dot(), ' ').subrange(0, i as int),
        decreases s@.len() - i,
    {
        let c = s[i];
        if c == '_' || c == '.' {
            v.push(' ');
        } else {
            v.push(c);
        }
        assert(map_chars(s@, underscore_or_dot(), ' ').subrange(0, i + 1) =~= map_chars(s@, underscore_or_dot(), ' ').subrange(0, i as int).push(v@[i as int]));
        i = i + 1;
    }
    assert(map_chars(s@, underscore_or_dot(), ' ').subrange(0, s@.len() as int) =~= map_chars(s@, underscore_or_dot(), ' '));
    v
}

/// `s.replace('_', " ")`.
pub fn spaces_for_underscores(s: &[char]) -> (r: Vec<char>)
    ensures
        r@ == map_chars(s@, underscore(), ' '),
{
    let mut v: Vec<char> = Vec::new();
    let mut i: usize = 0;
    while i < s.len()
        invariant
            i <= s@.len(),
            v@ == map_chars(s@, underscore(), ' ').subrange(0, i as int),
        decreases s@.len() - i,
    {
        let c = s[i];
        if c == '_' {
            v.push(' ');
        } else {
            v.push(c);
        }
        assert(map_chars(s@, underscore(), ' ').subrange(0, i + 1) =~= map_chars(s@, underscore(), ' ').subrange(0, i as int).push(v@[i as int]));
        i = i + 1;
    }
    assert(map_chars(s@, underscore(), ' ').subrange(0, s@.len() as int) =~= map_chars(s@, underscore(), ' '));
    v
}

/// First index `>= from` at which `p` occurs in `s` (`str::find` with a string pattern).
pub open spec fn find_from(s: Seq<char>, p: Seq<char>, from: int) -> Option<int>
    decreases s.len() + 1 - from,
{
    if from < 0 || from + p.len() > s.len() {
        None
    } else if s.subrange(from, from + p.len()) == p {
        Some(from)
    } else {
        find_from(s, p, from + 1)
    }
}

pub fn find_sub_from(s: &[char], p: &[char], from: usize) -> (r: Option<usize>)
    ensures
        r matches Some(i) ==> find_from(s@, p@, from as int) == Some(i as int),
        r is None ==> find_from(s@, p@, from as int) is None,
        r matches Some(i) ==> from <= i && i + p@.len() <= s@.len(),
{
    if p.len() == 0 {
        if from <= s.len() {
            assert(s@.subrange(from as int, from as int) =~= p@);
            return Some(from);
        }
        return None;
    }
    let mut i: usize = from;
    while s.len() >= p.len() && i <= s.len() - p.len()
        invariant
            from <= i,
            p@.len() >= 1,
            find_from(s@, p@, from as int) == find_from(s@, p@, i as int),
        decreases s@.len() + 1 - i,
    {
        let piece = slice_chars(s, i, i + p.len());
        if seq_eq(piece.as_slice(), p) {
            return Some(i);
        }
        i = i + 1;
    }
    None
}

// ---------------------------------------------------------------------------
// Decimal numbers
// ---------------------------------------------------------------------------

pub open spec fn all_digits(s: Seq<char>) -> bool {
    forall|i: int| 0 <= i < s.len() ==> is_digit(s[i])
}

pub open spec fn digits_value(s: Seq<char>) -> nat
    decreases s.len(),
{
    if s.len() == 0 {
        0
    } else {
        digits_value(s.drop_last()) * 10 + digit_val(s.last())
    }
}

/// The digits that the standard library's unsigned `FromStr` reads: an optional
/// leading `+`, then at least one ASCII digit and nothing else.
pub open spec fn unsigned_body(s: Seq<char>) -> Seq<char> {
    if s.len() > 0 && s[0] == '+' {
        s.drop_first()
    } else {
        s
    }
}

/// Value of `s` as the standard library's unsigned integer `FromStr` reads it,
/// when at most `max`.
pub open spec fn parse_unsigned(s: Seq<char>, max: nat) -> Option<nat> {
    let b = unsigned_body(s);
    if b.len() > 0 && all_digits(b) && digits_value(b) <= max {
        Some(digits_value(b))
    } else {
        None
    }
}

/// Value of `s` as the standard library's signed integer `FromStr` reads it
/// (optional `+` or `-`, then digits), when within `[-max - 1, max]`.
pub open spec fn parse_signed(s: Seq<char>, max: nat) -> Option<int> {
    if s.len() > 0 && s[0] == '-' {
        let b = s.drop_first();
        if b.len() > 0 && all_digits(b) && digits_value(b) <= max + 1 {
            Some(-(digits_value(b) as int))
        } else {
            None
        }
    } else {
        match parse_unsigned(s, max) {
            Some(v) => Some(v as int),
            None => None,
        }
    }
}

proof fn lemma_digits_value_prefix_le(s: Seq<char>, k: int)
    requires
        0 <= k <= s.len(),
        all_digits(s),
    ensures
        digits_value(s.subrange(0, k)) <= digits_value(s),
    decreases s.len() - k,
{
    if k < s.len() {
        assert(s.drop_last().subrange(0, k) =~= s.subrange(0, k));
        lemma_digits_value_prefix_le(s.drop_last(), k);
    } else {
        assert(s.subrange(0, k) =~= s);
    }
}

/// Reads the digits of `s` (no sign), giving their value when it is at most `max`.
fn digits_upto(s: &[char], max: u64) -> (r: Option<u64>)
    requires
        max >= 9,
    ensures
        match r {
            Some(v) => s@.len() > 0 && all_digits(s@) && v == digits_value(s@) && v <= max,
            None => !(s@.len() > 0 && all_digits(s@) && digits_value(s@) <= max),
        },
{
    if s.len() == 0 {
        return None;
    }
    let mut v: u64 = 0;
    let mut i: usize = 0;
    while i < s.len()
        invariant
            i <= s@.len(),
            all_digits(s@.subrange(0, i as int)),
            v == digits_value(s@.subrange(0, i as int)),
            v <= max,
            max >= 9,
        decreases s@.len() - i,
    {
        let c = s[i];
        if !is_ascii_digit(c) {
            return None;
        }
        let d: u64 = (c as u32 - '0' as u32) as u64;
        let ghost pre = s@.subrange(0, i as int);
        assert(s@.subrange(0, i + 1).drop_last() =~= pre);
        assert(all_digits(s@.subrange(0, i + 1)));
        if v > (max - d) / 10 {
            proof {
                assert(digits_value(s@.subrange(0, i + 1)) == v * 10 + d);
                assert(v * 10 + d > max) by (nonlinear_arith)
                    requires v > (max - d) / 10, d <= 9, d <= max;
                if all_digits(s@) {
                    lemma_digits_value_prefix_le(s@, i + 1);
                }
            }
            return None;
        }
        assert(v * 10 + d <= max) by (nonlinear_arith)
            requires v <= (max - d) / 10, d <= max;
        v = v * 10 + d;
        i = i + 1;
    }
    assert(s@.subrange(0, s@.len() as int) =~= s@);
    Some(v)
}

/// `str::parse::<u64>`.
pub fn parse_u64(s: &[char]) -> (r: Option<u64>)
    ensures
        r == (match parse_unsigned(s@, u64::MAX as nat) { Some(v) => Some(v as u64), None => None::<u64> }),
{
    let body = if s.len() > 0 && s[0] == '+' { slice_subrange(s, 1, s.len()) } else { s };
    assert(body@ == unsigned_body(s@));
    digits_upto(body, u64::MAX)
}

/// `str::parse::<u32>`.
pub fn parse_u32(s: &[char]) -> (r: Option<u32>)
    ensures
        r == (match parse_unsigned(s@, u32::MAX as nat) { Some(v) => Some(v as u32), None => None::<u32> }),
{
    let body = if s.len() > 0 && s[0] == '+' { slice_subrange(s, 1, s.len()) } else { s };
    assert(body@ == unsigned_body(s@));
    match digits_upto(body, u32::MAX as u64) {
        Some(v) => Some(v as u32),
        None => None,
    }
}

/// `str::parse::<usize>`.
pub fn parse_usize(s: &[char]) -> (r: Option<usize>)
    ensures
        r == (match parse_unsigned(s@, usize::MAX as nat) { Some(v) => Some(v as usize), None => None::<usize> }),
{
    let body = if s.len() > 0 && s[0] == '+' { slice_subrange(s, 1, s.len()) } else { s };
    assert(body@ == unsigned_body(s@));
    match digits_upto(body, usize::MAX as u64) {
        Some(v) => Some(v as usize),
        None => None,
    }
}

/// `str::parse::<u16>`.
pub fn parse_u16(s: &[char]) -> (r: Option<u16>)
    ensures
        r == (match parse_unsigned(s@, u16::MAX as nat) { Some(v) => Some(v as u16), None => None::<u16> }),
{
    let body = if s.len() > 0 && s[0] == '+' { slice_subrange(s, 1, s.len()) } else { s };
    assert(body@ == unsigned_body(s@));
    match digits_upto(body, u16::MAX as u64) {
        Some(v) => Some(v as u16),
        None => None,
    }
}

/// `str::parse::<i64>`.
pub fn parse_i64(s: &[char]) -> (r: Option<i64>)
    ensures
        r == (match parse_signed(s@, i64::MAX as nat) { Some(v) => Some(v as i64), None => None::<i64> }),
{
    if s.len() > 0 && s[0] == '-' {
        let body = slice_subrange(s, 1, s.len());
        assert(body@ == s@.drop_first());
        match digits_upto(body, 9223372036854775808u64) {
            Some(v) => {
                if v == 9223372036854775808u64 {
                    Some(i64::MIN)
                } else {
                    Some(-(v as i64))
                }
            },
            None => None,
        }
    } else {
        let body = if s.len() > 0 && s[0] == '+' { slice_subrange(s, 1, s.len()) } else { s };
        assert(body@ == unsigned_body(s@));
        match digits_upto(body, i64::MAX as u64) {
            Some(v) => Some(v as i64),
            None => None,
        }
    }
}

/// Decimal digits of `n`, as `{}` formats an unsigned integer.
pub open spec fn decimal(n: nat) -> Seq<char>
    decreases n,
{
    if n < 10 {
        seq![digit_char(n)]
    } else {
        decimal(n / 10).push(digit_char(n % 10))
    }
}

/// `{}` of a signed integer.
pub open spec fn signed_decimal(n: int) -> Seq<char> {
    if n < 0 {
        seq!['-'] + decimal((-n) as nat)
    } else {
        decimal(n as nat)
    }
}

/// `{:02}` of an unsigned integer: at least two digits, zero-padded.
pub open spec fn decimal2(n: nat) -> Seq<char> {
    if n < 10 {
        seq!['0', digit_char(n)]
    } else {
        decimal(n)
    }
}

pub fn push_u64(out: &mut Vec<char>, n: u64)
    ensures
        final(out)@ == old(out)@ + decimal(n as nat),
    decreases n,
{
    if n >= 10 {
        push_u64(out, n / 10);
    }
    let d: u8 = (n % 10) as u8;
    let c = (d + 0x30u8) as char;
    out.push(c);
    proof {
        if n >= 10 {
            assert(decimal(n as nat) == decimal((n / 10) as nat).push(digit_char((n % 10) as nat)));
        } else {
            assert(decimal(n as nat) == seq![digit_char(n as nat)]);
        }
        assert(final(out)@ =~= old(out)@ + decimal(n as nat));
    }
}

pub fn push_i64(out: &mut Vec<char>, n: i64)
    ensures
        final(out)@ == old(out)@ + signed_decimal(n as int),
{
    if n < 0 {
        out.push('-');
        let m: u64 = if n == i64::MIN { 9223372036854775808u64 } else { (-n) as u64 };
        let ghost mid = out@;
        push_u64(out, m);
        assert(out@ =~= old(out)@ + (seq!['-'] + decimal(m as nat)));
    } else {
        push_u64(out, n as u64);
    }
}

pub fn push_u64_2(out: &mut Vec<char>, n: u64)
    ensures
        final(out)@ == old(out)@ + decimal2(n as nat),
{
    if n < 10 {
        out.push('0');
        let ghost mid = out@;
        push_u64(out, n);
        assert(decimal(n as nat) == seq![digit_char(n as nat)]);
        assert(out@ =~= old(out)@ + decimal2(n as nat));
    } else {
        push_u64(out, n);
    }
}

pub fn u64_text(n: u64) -> (r: Vec<char>)
    ensures
        r@ == decimal(n as nat),
{
    let mut v: Vec<char> = Vec::new();
    push_u64(&mut v, n);
    assert(v@ =~= decimal(n as nat));
    v
}

pub fn i64_text(n: i64) -> (r: Vec<char>)
    ensures
        r@ == signed_decimal(n as int),
{
    let mut v: Vec<char> = Vec::new();
    push_i64(&mut v, n);
    assert(v@ =~= signed_decimal(n as int));
    v
}

} // verus!

verus! {

pub proof fn lemma_digit_char(d: nat)
    requires
        d < 10,
    ensures
        is_digit(digit_char(d)),
        digit_val(digit_char(d)) == d,
{
}

/// The decimal form of a number consists of digits, reads back as the number, and starts
/// with a digit (never a sign).
pub proof fn lemma_decimal(n: nat)
    ensures
        decimal(n).len() >= 1,
        all_digits(decimal(n)),
        digits_value(decimal(n)) == n,
    decreases n,
{
    if n < 10 {
        lemma_digit_char(n);
        assert(decimal(n).drop_last() =~= Seq::<char>::empty());
        assert(decimal(n).last() == digit_char(n));
        assert(digits_value(decimal(n)) == digits_value(decimal(n).drop_last()) * 10 + digit_val(decimal(n).last()));
    } else {
        lemma_decimal(n / 10);
        lemma_digit_char(n % 10);
        assert(decimal(n).drop_last() == decimal(n / 10));
        assert(decimal(n).last() == digit_char(n % 10));
        assert(digits_value(decimal(n)) == digits_value(decimal(n).drop_last()) * 10 + digit_val(decimal(n).last()));
        assert(n == (n / 10) * 10 + n % 10);
    }
}

pub proof fn lemma_parse_decimal(n: nat, max: nat)
    requires
        n <= max,
    ensures
        parse_unsigned(decimal(n), max) == Some(n),
{
    lemma_decimal(n);
    assert(is_digit(decimal(n)[0]));
    assert(unsigned_body(decimal(n)) == decimal(n));
}

/// The predicate "is `c`", for trimming one character.
pub open spec fn is_char(c: char) -> spec_fn(char) -> bool {
    |x: char| x == c
}

/// `str::trim_end_matches(c)`.
pub fn trim_end_char(s: &[char], c: char) -> (r: Vec<char>)
    ensures
        r@ == trim_end_by(s@, is_char(c)),
{
    let mut k: usize = s.len();
    while k > 0 && s[k - 1] == c
        invariant
            k <= s@.len(),
            forall|j: int| k <= j < s@.len() ==> (is_char(c))(s@[j]),
        decreases k,
    {
        k = k - 1;
    }
    proof {
        lemma_trim_end_take(s@, is_char(c), k as int);
        let t = s@.subrange(0, k as int);
        if k > 0 {
            assert(t.last() == s@[k - 1]);
        }
    }
    slice_chars(s, 0, k)
}

/// `str::trim_start_matches(c)`.
pub fn trim_start_char(s: &[char], c: char) -> (r: Vec<char>)
    ensures
        r@ == trim_start_by(s@, is_char(c)),
{
    let mut i: usize = 0;
    while i < s.len() && s[i] == c
        invariant
            i <= s@.len(),
            forall|j: int| 0 <= j < i ==> (is_char(c))(s@[j]),
        decreases s@.len() - i,
    {
        i = i + 1;
    }
    proof {
        lemma_trim_start_skip(s@, is_char(c), i as int);
    }
    slice_chars(s, i, s.len())
}

/// Whether `s` is empty after `str::trim`.
pub open spec fn blank(s: Seq<char>) -> bool {
    trim(s).len() == 0
}

pub fn is_blank(s: &str) -> (r: bool)
    ensures
        r == blank(s@),
{
    let cs = chars_of(s);
    trim_chars(cs.as_slice()).len() == 0
}

} // verus!
