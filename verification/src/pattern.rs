//! Regular-expression matching, done by the `regex` crate. Positions are
//! reported as char offsets into the haystack (the crate itself works in byte
//! offsets; the wrappers convert one into the other).
use vstd::prelude::*;

verus! {

/// A match span `(start, end)` in chars, end exclusive.
pub type Span = (usize, usize);

/// The leftmost-first match of `pattern` in `hay` (`Regex::find`), `None` when there is
/// no match or the pattern does not compile.
pub uninterp spec fn leftmost_match(pattern: Seq<char>, hay: Seq<char>) -> Option<Span>;

/// The capture groups of the leftmost-first match (`Regex::captures`): group 0 is the
/// whole match, a group that did not take part is `None`.
pub uninterp spec fn leftmost_captures(pattern: Seq<char>, hay: Seq<char>) -> Option<Seq<Option<Span>>>;

/// Successive non-overlapping matches (`Regex::find_iter`).
pub uninterp spec fn all_matches(pattern: Seq<char>, hay: Seq<char>) -> Seq<Span>;

/// Capture groups of successive non-overlapping matches (`Regex::captures_iter`).
pub uninterp spec fn all_captures(pattern: Seq<char>, hay: Seq<char>) -> Seq<Seq<Option<Span>>>;

pub open spec fn span_in(sp: Span, len: nat) -> bool {
    sp.0 <= sp.1 && sp.1 <= len
}

pub open spec fn groups_in(g: Seq<Option<Span>>, len: nat) -> bool {
    forall|i: int| 0 <= i < g.len() ==> (#[trigger] g[i] matches Some(sp) ==> span_in(sp, len))
}

/// Group `i` of a capture list; a group the list does not have did not take part.
pub open spec fn group(g: Seq<Option<Span>>, i: int) -> Option<Span> {
    if 0 <= i < g.len() {
        g[i]
    } else {
        None
    }
}

pub open spec fn text_of(hay: Seq<char>, sp: Span) -> Seq<char> {
    hay.subrange(sp.0 as int, sp.1 as int)
}

/// Calls `Regex::new` then `Regex::find`. The contract names the match and states what
/// the crate documents of any match: a span of the haystack.
#[verifier::external_body]
pub(crate) fn find(pattern: &str, hay: &[char]) -> (r: Option<Span>)
    ensures
        r == leftmost_match(pattern@, hay@),
        r matches Some(sp) ==> span_in(sp, hay@.len()),
{
    let h: String = hay.iter().collect();
    let m = regex::Regex::new(pattern).ok()?.find(&h)?;
    Some((h[..m.start()].chars().count(), h[..m.end()].chars().count()))
}

/// Calls `Regex::new` then `Regex::captures`. The contract names the groups and states
/// what the crate documents: group 0 is present and is the `find` match, every
/// present group is a span of the haystack.
#[verifier::external_body]
pub(crate) fn captures(pattern: &str, hay: &[char]) -> (r: Option<Vec<Option<Span>>>)
    ensures
        r matches Some(g) ==> leftmost_captures(pattern@, hay@) == Some(g@),
        r is None ==> leftmost_captures(pattern@, hay@) is None,
        r matches Some(g) ==> g@.len() >= 1 && g@[0] == leftmost_match(pattern@, hay@) && g@[0] is Some
            && groups_in(g@, hay@.len()),
        r is None ==> leftmost_match(pattern@, hay@) is None,
{
    let h: String = hay.iter().collect();
    let c = regex::Regex::new(pattern).ok()?.captures(&h)?;
    let pos = |b: usize| h[..b].chars().count();
    Some(c.iter().map(|g| g.map(|m| (pos(m.start()), pos(m.end())))).collect())
}

/// Calls `Regex::new` then `Regex::find_iter`. The contract names the matches and states
/// what the crate documents: they are spans of the haystack, in order, not overlapping,
/// and the first is the `find` match.
#[verifier::external_body]
pub(crate) fn find_iter(pattern: &str, hay: &[char]) -> (r: Vec<Span>)
    ensures
        r@ == all_matches(pattern@, hay@),
        forall|i: int| 0 <= i < r@.len() ==> span_in(#[trigger] r@[i], hay@.len()),
        forall|i: int| 0 <= i < r@.len() - 1 ==> (#[trigger] r@[i]).1 <= r@[i + 1].0,
        r@.len() == 0 <==> leftmost_match(pattern@, hay@) is None,
        r@.len() > 0 ==> leftmost_match(pattern@, hay@) == Some(r@[0]),
{
    let h: String = hay.iter().collect();
    let Ok(re) = regex::Regex::new(pattern) else { return Vec::new() };
    let pos = |b: usize| h[..b].chars().count();
    re.find_iter(&h).map(|m| (pos(m.start()), pos(m.end()))).collect()
}

/// Calls `Regex::new` then `Regex::captures_iter`. The contract names the group lists and
/// states what the crate documents: each has its whole match as group 0, and all
/// present groups are spans of the haystack.
#[verifier::external_body]
pub(crate) fn captures_iter(pattern: &str, hay: &[char]) -> (r: Vec<Vec<Option<Span>>>)
    ensures
        r@.len() == all_captures(pattern@, hay@).len(),
        forall|i: int| 0 <= i < r@.len() ==> (#[trigger] r@[i])@ == all_captures(pattern@, hay@)[i],
        forall|i: int| 0 <= i < r@.len() ==> groups_in((#[trigger] r@[i])@, hay@.len()) && r@[i]@.len() >= 1,
{
    let h: String = hay.iter().collect();
    let Ok(re) = regex::Regex::new(pattern) else { return Vec::new() };
    let pos = |b: usize| h[..b].chars().count();
    re.captures_iter(&h).map(|c| c.iter().map(|g| g.map(|m| (pos(m.start()), pos(m.end())))).collect()).collect()
}

pub fn is_match(pattern: &str, hay: &[char]) -> (r: bool)
    ensures
        r == (leftmost_match(pattern@, hay@) is Some),
{
    find(pattern, hay).is_some()
}

/// Group `i` of a capture list.
pub fn get_group(g: &Vec<Option<Span>>, i: usize) -> (r: Option<Span>)
    ensures
        r == group(g@, i as int),
{
    if i < g.len() {
        g[i]
    } else {
        None
    }
}

/// The text with every span replaced by `rep` (as `Regex::replace_all` does with the
/// `find_iter` matches).
#[verifier::opaque]
pub open spec fn replace_spans(s: Seq<char>, spans: Seq<Span>, rep: Seq<char>) -> Seq<char>
    decreases spans.len(),
{
    if spans.len() == 0 {
        s
    } else {
        let last = spans.last();
        replace_spans(s.subrange(0, last.0 as int), spans.drop_last(), rep) + rep
            + s.subrange(last.1 as int, s.len() as int)
    }
}

pub open spec fn ordered_spans(spans: Seq<Span>, len: nat) -> bool {
    &&& forall|i: int| 0 <= i < spans.len() ==> span_in(#[trigger] spans[i], len)
    &&& forall|i: int| 0 <= i < spans.len() - 1 ==> (#[trigger] spans[i]).1 <= spans[i + 1].0
}

/// The text with every match replaced by `rep`.
pub open spec fn replace_all_matches(pattern: Seq<char>, s: Seq<char>, rep: Seq<char>) -> Seq<char> {
    replace_spans(s, all_matches(pattern, s), rep)
}

/// The text with the first match replaced by `rep` (`Regex::replace`).
pub open spec fn replace_first_match(pattern: Seq<char>, s: Seq<char>, rep: Seq<char>) -> Seq<char> {
    match leftmost_match(pattern, s) {
        Some(sp) => s.subrange(0, sp.0 as int) + rep + s.subrange(sp.1 as int, s.len() as int),
        None => s,
    }
}

/// `Regex::replace_all(hay, rep)` with a literal replacement, built from the `find_iter`
/// matches.
#[verifier::rlimit(50)]
pub fn replace_all(pattern: &str, hay: &[char], rep: &str) -> (r: Vec<char>)
    ensures
        r@ == replace_all_matches(pattern@, hay@, rep@),
        crate::text::no_separator(hay@) && crate::text::no_separator(rep@) ==> crate::text::no_separator(r@),
{
    let spans = find_iter(pattern, hay);
    let repc = crate::text::chars_of(rep);
    let mut out: Vec<char> = Vec::new();
    let mut i: usize = 0;
    let mut at: usize = 0;
    let ghost sp = spans@;
    proof {
        reveal(replace_spans);
        assert(sp.subrange(0, 0) =~= Seq::<Span>::empty());
    }
    assert(ordered_spans(sp, hay@.len()));
    while i < spans.len()
        invariant
            sp == spans@,
            sp == all_matches(pattern@, hay@),
            ordered_spans(sp, hay@.len()),
            repc@ == rep@,
            i <= sp.len(),
            i > 0 ==> at == sp[i - 1].1,
            i == 0 ==> at == 0,
            at <= hay@.len(),
            forall|j: int| 0 <= j < i ==> (#[trigger] sp[j]).1 <= at,
            out@ == replace_spans(hay@.subrange(0, at as int), sp.subrange(0, i as int), rep@),
            crate::text::no_separator(hay@) && crate::text::no_separator(rep@) ==> crate::text::no_separator(out@),
        decreases sp.len() - i,
    {
        let (s, e) = spans[i];
        assert(span_in(sp[i as int], hay@.len()));
        if i > 0 {
            assert(sp[i - 1].1 <= sp[i as int].0);
        }
        let ghost old_out = out@;
        let piece = crate::text::slice_chars(hay, at, s);
        crate::text::push_all(&mut out, piece.as_slice());
        crate::text::push_all(&mut out, repc.as_slice());
        proof {
            lemma_replace_step(hay@, sp, rep@, i as int, at as int);
            assert(out@ =~= old_out + hay@.subrange(at as int, s as int) + rep@);
            if crate::text::no_separator(hay@) && crate::text::no_separator(rep@) {
                let piece_v = hay@.subrange(at as int, s as int);
                assert forall|k: int| 0 <= k < out@.len() implies #[trigger] out@[k] != '_' && out@[k] != '.' by {
                    if k < old_out.len() {
                        assert(out@[k] == old_out[k]);
                    } else if k < old_out.len() + piece_v.len() {
                        assert(out@[k] == hay@[at + k - old_out.len()]);
                    } else {
                        assert(out@[k] == rep@[k - old_out.len() - piece_v.len()]);
                    }
                }
            }
            assert forall|j: int| 0 <= j < i + 1 implies (#[trigger] sp[j]).1 <= e by {
                if j < i {
                    assert(sp[j].1 <= at);
                }
            }
        }
        at = e;
        i = i + 1;
    }
    let tail = crate::text::slice_chars(hay, at, hay.len());
    let ghost before = out@;
    crate::text::push_all(&mut out, tail.as_slice());
    proof {
        if crate::text::no_separator(hay@) && crate::text::no_separator(rep@) {
            assert forall|k: int| 0 <= k < out@.len() implies #[trigger] out@[k] != '_' && out@[k] != '.' by {
                if k < before.len() {
                    assert(out@[k] == before[k]);
                } else {
                    assert(out@[k] == tail@[k - before.len()]);
                    assert(tail@[k - before.len()] == hay@[at + k - before.len()]);
                }
            }
        }
        assert(sp.subrange(0, sp.len() as int) =~= sp);
        if sp.len() > 0 {
            assert(sp.last() == sp[sp.len() - 1]);
        }
        lemma_replace_spans_suffix(hay@, sp, rep@, at as int);
    }
    out
}

proof fn lemma_replace_step(hay: Seq<char>, sp: Seq<Span>, rep: Seq<char>, i: int, at: int)
    requires
        ordered_spans(sp, hay.len()),
        0 <= i < sp.len(),
        0 <= at <= sp[i].0,
        forall|j: int| 0 <= j < i ==> (#[trigger] sp[j]).1 <= at,
        i > 0 ==> at == sp[i - 1].1,
    ensures
        replace_spans(hay.subrange(0, sp[i].1 as int), sp.subrange(0, i + 1), rep)
            == replace_spans(hay.subrange(0, at), sp.subrange(0, i), rep) + hay.subrange(at, sp[i].0 as int) + rep,
{
    reveal(replace_spans);
    let (s, e) = sp[i];
    assert(span_in(sp[i], hay.len()));
    let si = sp.subrange(0, i + 1);
    let sk = sp.subrange(0, i);
    assert(si.drop_last() =~= sk);
    assert(si.last() == (s, e));
    let h2 = hay.subrange(0, e as int);
    let hs = hay.subrange(0, s as int);
    assert(h2.subrange(0, s as int) =~= hs);
    assert(h2.subrange(e as int, h2.len() as int) =~= Seq::<char>::empty());
    assert forall|j: int| 0 <= j < sk.len() implies span_in(#[trigger] sk[j], hs.len()) by {
        assert(sk[j] == sp[j]);
        assert(span_in(sp[j], hay.len()));
        assert(sp[j].1 <= at);
    }
    assert forall|j: int| 0 <= j < sk.len() - 1 implies (#[trigger] sk[j]).1 <= sk[j + 1].0 by {
        assert(sk[j] == sp[j]);
        assert(sk[j + 1] == sp[j + 1]);
    }
    if i > 0 {
        assert(sk.last() == sp[i - 1]);
    }
    lemma_replace_spans_suffix(hs, sk, rep, at);
    assert(hs.subrange(0, at) =~= hay.subrange(0, at));
    assert(hs.subrange(at, hs.len() as int) =~= hay.subrange(at, s as int));
    assert(replace_spans(h2, si, rep) =~= replace_spans(hs, sk, rep) + rep);
}

/// Replacing spans that all end by `at`, then appending the text after `at`, is the same
/// as replacing them in the longer text.
proof fn lemma_replace_spans_suffix(s: Seq<char>, spans: Seq<Span>, rep: Seq<char>, at: int)
    requires
        ordered_spans(spans, s.len()),
        spans.len() > 0 ==> spans.last().1 <= at,
        spans.len() == 0 ==> at >= 0,
        at <= s.len(),
    ensures
        replace_spans(s, spans, rep) == replace_spans(s.subrange(0, at), spans, rep) + s.subrange(at, s.len() as int),
    decreases spans.len(),
{
    reveal(replace_spans);
    if spans.len() == 0 {
        assert(s =~= s.subrange(0, at) + s.subrange(at, s.len() as int));
    } else {
        let last = spans.last();
        let st = s.subrange(0, at);
        assert(st.subrange(0, last.0 as int) =~= s.subrange(0, last.0 as int));
        assert(s.subrange(last.1 as int, s.len() as int) =~= st.subrange(last.1 as int, st.len() as int)
            + s.subrange(at, s.len() as int));
    }
}

/// `Regex::replace(hay, rep)` with a literal replacement: the first match only.
pub fn replace_first(pattern: &str, hay: &[char], rep: &str) -> (r: Vec<char>)
    ensures
        r@ == replace_first_match(pattern@, hay@, rep@),
        crate::text::no_separator(hay@) && crate::text::no_separator(rep@) ==> crate::text::no_separator(r@),
{
    match find(pattern, hay) {
        Some((s, e)) => {
            let mut out = crate::text::slice_chars(hay, 0, s);
            let ghost a = out@;
            crate::text::push_str(&mut out, rep);
            let ghost b = out@;
            let tail = crate::text::slice_chars(hay, e, hay.len());
            crate::text::push_all(&mut out, tail.as_slice());
            proof {
                if crate::text::no_separator(hay@) && crate::text::no_separator(rep@) {
                    assert forall|k: int| 0 <= k < out@.len() implies #[trigger] out@[k] != '_' && out@[k] != '.' by {
                        if k < a.len() {
                            assert(out@[k] == hay@[k]);
                        } else if k < b.len() {
                            assert(out@[k] == rep@[k - a.len()]);
                        } else {
                            assert(out@[k] == hay@[e + k - b.len()]);
                        }
                    }
                }
            }
            out
        },
        None => crate::text::slice_chars(hay, 0, hay.len()),
    }
}

} // verus!
