//! Matching a show against metadata search hits: title similarity (the Dice coefficient
//! over character bigrams), the choice of the best hit, and where cover art is kept.
//! The AniList GraphQL exchange itself lives outside the library.
use vstd::prelude::*;
use crate::models::MetadataHit;
use crate::text::{unicode_lowercase, unicode_alphanumeric, to_lowercase, is_alphanumeric, chars_of, seq_eq,
    ascii_lower_seq, to_ascii_lower, last_index_of, rfind_char, slice_chars, string_of};

verus! {

broadcast use vstd::seq_lib::group_to_multiset_ensures, vstd::multiset::group_multiset_properties;

/// The GraphQL query of a search (`$q`) or a lookup by id (`$id`): up to five anime with
/// their titles, cover and episode count.
pub const QUERY: &'static str = r#"
query ($q: String, $id: Int) {
  Page(perPage: 5) {
    media(search: $q, id: $id, type: ANIME) {
      id title { romaji english } coverImage { large } episodes
    }
  }
}"#;

/// Attempts per query; waits grow as retry_base * 2^n and honour Retry-After.
pub const MAX_ATTEMPTS: u32 = 4;
pub const SOURCE: &'static str = "anilist";
/// Minimum title similarity for an automatic match, 7/20 (0.35). Below this the show is left
/// unmatched rather than labelled, and renamed on disk, with someone else's title.
pub const MIN_AUTO_MATCH_NUM: u128 = 7;
pub const MIN_AUTO_MATCH_DEN: u128 = 20;

/// A similarity as the exact fraction `num / den`, in 0..=1.
#[derive(Debug, Clone, Copy, PartialEq)]
pub struct Similarity {
    pub num: u128,
    pub den: u128,
}

// ---------------------------------------------------------------------------
// Fractions
// ---------------------------------------------------------------------------

pub open spec fn frac_gt(a: Similarity, b: Similarity) -> bool {
    a.num * b.den > b.num * a.den
}

proof fn lemma_split_compare(a: int, b: int, c: int, d: int, qa: int, ra: int, qc: int, rc: int)
    by (nonlinear_arith)
    requires
        b > 0,
        d > 0,
        a == qa * b + ra,
        c == qc * d + rc,
        0 <= ra < b,
        0 <= rc < d,
    ensures
        qa > qc ==> a * d > c * b,
        qa < qc ==> !(a * d > c * b),
        qa == qc ==> (a * d > c * b <==> ra * d > rc * b),
{
    assert(a * d - c * b == (qa - qc) * (b * d) + (ra * d - rc * b));
    assert(ra * d < b * d);
    assert(rc * b < b * d);
    if qa > qc {
        assert((qa - qc) * (b * d) >= b * d);
    }
    if qa < qc {
        assert((qa - qc) * (b * d) <= -(b * d));
    }
}

/// Whether `a / b > c / d`, compared exactly by continued fractions (no product overflows).
fn greater(a: u128, b: u128, c: u128, d: u128) -> (r: bool)
    requires
        b > 0,
        d > 0,
    ensures
        r == (a * d > c * b),
    decreases b + d,
{
    let qa = a / b;
    let ra = a % b;
    let qc = c / d;
    let rc = c % d;
    proof {
        vstd::arithmetic::div_mod::lemma_fundamental_div_mod(a as int, b as int);
        vstd::arithmetic::div_mod::lemma_fundamental_div_mod(c as int, d as int);
        assert((a / b) * b == b * (a / b)) by (nonlinear_arith);
        assert((c / d) * d == d * (c / d)) by (nonlinear_arith);
        lemma_split_compare(a as int, b as int, c as int, d as int, qa as int, ra as int, qc as int, rc as int);
    }
    if qa != qc {
        return qa > qc;
    }
    if ra == 0 {
        assert(ra * d == 0) by (nonlinear_arith) requires ra == 0;
        return false;
    }
    if rc == 0 {
        assert(rc * b == 0) by (nonlinear_arith) requires rc == 0;
        assert(ra * d > 0) by (nonlinear_arith) requires ra > 0, d > 0;
        return true;
    }
    let r = greater(d, rc, b, ra);
    assert(d * ra == ra * d && b * rc == rc * b) by (nonlinear_arith);
    r
}

/// Whether similarity `a` is strictly greater than `b`.
pub fn more_similar(a: Similarity, b: Similarity) -> (r: bool)
    requires
        a.den > 0,
        b.den > 0,
    ensures
        r == frac_gt(a, b),
{
    greater(a.num, a.den, b.num, b.den)
}

/// Whether a similarity reaches the threshold for an unattended match.
pub open spec fn passes(s: Similarity) -> bool {
    s.num * MIN_AUTO_MATCH_DEN >= MIN_AUTO_MATCH_NUM * s.den
}

// ---------------------------------------------------------------------------
// Similarity
// ---------------------------------------------------------------------------

/// The letters and digits of `s`, in order.
pub open spec fn alnum_only(s: Seq<char>) -> Seq<char>
    decreases s.len(),
{
    if s.len() == 0 {
        s
    } else if unicode_alphanumeric(s.last()) {
        alnum_only(s.drop_last()).push(s.last())
    } else {
        alnum_only(s.drop_last())
    }
}

/// A title as compared: lowercased, with everything but letters and digits removed.
pub open spec fn normalized(s: Seq<char>) -> Seq<char> {
    alnum_only(unicode_lowercase(s))
}

/// The adjacent character pairs of `cs`.
pub open spec fn bigrams(cs: Seq<char>) -> Seq<(char, char)> {
    if cs.len() < 2 {
        Seq::<(char, char)>::empty()
    } else {
        Seq::new((cs.len() - 1) as nat, |i: int| (cs[i], cs[i + 1]))
    }
}

/// How many bigrams the two sequences have in common, counted with multiplicity.
pub open spec fn shared_bigrams(a: Seq<char>, b: Seq<char>) -> nat {
    bigrams(a).to_multiset().intersection_with(bigrams(b).to_multiset()).len()
}

/// The Dice coefficient of two normalized titles: 0 when either is empty, 1 or 0 by plain
/// equality when either is a single character, else twice the shared bigrams over all bigrams.
pub open spec fn dice_spec(a: Seq<char>, b: Seq<char>) -> Similarity {
    if a.len() == 0 || b.len() == 0 {
        Similarity { num: 0, den: 1 }
    } else if a.len() < 2 || b.len() < 2 {
        if a == b { Similarity { num: 1, den: 1 } } else { Similarity { num: 0, den: 1 } }
    } else {
        Similarity {
            num: (2 * shared_bigrams(a, b)) as u128,
            den: ((a.len() - 1) + (b.len() - 1)) as u128,
        }
    }
}

fn normalize(s: &str) -> (r: Vec<char>)
    ensures
        r@ == normalized(s@),
{
    let low = to_lowercase(chars_of(s).as_slice());
    let mut out: Vec<char> = Vec::new();
    let mut i: usize = 0;
    while i < low.len()
        invariant
            i <= low@.len(),
            out@ == alnum_only(low@.take(i as int)),
        decreases low@.len() - i,
    {
        let c = low[i];
        assert(low@.take(i + 1).drop_last() =~= low@.take(i as int));
        if is_alphanumeric(c) {
            out.push(c);
        }
        i = i + 1;
    }
    assert(low@.take(low@.len() as int) =~= low@);
    out
}

fn bigrams_of(cs: &[char]) -> (r: Vec<(char, char)>)
    ensures
        r@ == bigrams(cs@),
{
    let mut out: Vec<(char, char)> = Vec::new();
    if cs.len() < 2 {
        return out;
    }
    let mut i: usize = 0;
    let last: usize = cs.len() - 1;
    while i < last
        invariant
            cs@.len() >= 2,
            last == cs@.len() - 1,
            i <= last,
            out@.len() == i,
            forall|k: int| 0 <= k < i ==> out@[k] == (cs@[k], cs@[k + 1]),
        decreases cs@.len() - i,
    {
        out.push((cs[i], cs[i + 1]));
        i = i + 1;
    }
    assert(out@ =~= bigrams(cs@));
    out
}

/// Count of bigrams shared by `ba` and `bb`, each bigram of `bb` used at most once.
fn count_shared(ba: &Vec<(char, char)>, bb: &Vec<(char, char)>) -> (r: usize)
    ensures
        r == ba@.to_multiset().intersection_with(bb@.to_multiset()).len(),
        r <= ba@.len(),
        r <= bb@.len(),
{
    let mut remaining: Vec<(char, char)> = Vec::new();
    let mut k: usize = 0;
    while k < bb.len()
        invariant
            k <= bb@.len(),
            remaining@ == bb@.take(k as int),
        decreases bb@.len() - k,
    {
        remaining.push(bb[k]);
        assert(bb@.take(k + 1) =~= bb@.take(k as int).push(bb@[k as int]));
        k = k + 1;
    }
    assert(bb@.take(bb@.len() as int) =~= bb@);
    let ghost whole = bb@.to_multiset();
    let mut shared: usize = 0;
    let mut i: usize = 0;
    assert(ba@.take(0).to_multiset() =~= vstd::multiset::Multiset::<(char, char)>::empty());
    assert(whole.difference_with(vstd::multiset::Multiset::<(char, char)>::empty()) =~= whole);
    assert(vstd::multiset::Multiset::<(char, char)>::empty().intersection_with(whole) =~= vstd::multiset::Multiset::<(char, char)>::empty());
    while i < ba.len()
        invariant
            i <= ba@.len(),
            whole == bb@.to_multiset(),
            remaining@.to_multiset() == whole.difference_with(ba@.take(i as int).to_multiset()),
            shared == ba@.take(i as int).to_multiset().intersection_with(whole).len(),
            shared <= i,
            remaining@.len() + shared == bb@.len(),
        decreases ba@.len() - i,
    {
        let g = ba[i];
        let ghost a0 = ba@.take(i as int).to_multiset();
        assert(ba@.take(i + 1) =~= ba@.take(i as int).push(g));
        let ghost a1 = ba@.take(i + 1).to_multiset();
        assert(a1 =~= a0.insert(g));
        let mut j: usize = 0;
        let mut found: Option<usize> = None;
        while j < remaining.len() && found.is_none()
            invariant
                j <= remaining@.len(),
                found matches Some(x) ==> x < remaining@.len() && remaining@[x as int] == g,
                found is None ==> forall|m: int| 0 <= m < j ==> remaining@[m] != g,
            decreases remaining@.len() - j + (if found is None { 1int } else { 0int }),
        {
            if remaining[j].0 == g.0 && remaining[j].1 == g.1 {
                found = Some(j);
            } else {
                j = j + 1;
            }
        }
        let ghost rem0 = remaining@;
        match found {
            Some(x) => {
                assert(rem0.contains(g)) by {
                    assert(rem0[x as int] == g);
                }
                assert(rem0.to_multiset().count(g) > 0);
                remaining.remove(x);
                assert(remaining@.to_multiset() =~= whole.difference_with(a1));
                assert(a1.intersection_with(whole) =~= a0.intersection_with(whole).insert(g));
                shared = shared + 1;
            },
            None => {
                assert(!rem0.contains(g)) by {
                    if rem0.contains(g) {
                        let m = choose|m: int| 0 <= m < rem0.len() && rem0[m] == g;
                        assert(rem0[m] != g);
                    }
                }
                assert(rem0.to_multiset().count(g) == 0);
                assert(remaining@.to_multiset() =~= whole.difference_with(a1));
                assert(a1.intersection_with(whole) =~= a0.intersection_with(whole));
            },
        }
        i = i + 1;
    }
    assert(ba@.take(ba@.len() as int) =~= ba@);
    shared
}

/// The Dice coefficient of two normalized titles.
pub fn dice(na: &[char], nb: &[char]) -> (r: Similarity)
    ensures
        r == dice_spec(na@, nb@),
        valid_score(r),
{
    if na.len() == 0 || nb.len() == 0 {
        return Similarity { num: 0, den: 1 };
    }
    if na.len() < 2 || nb.len() < 2 {
        return if seq_eq(na, nb) { Similarity { num: 1, den: 1 } } else { Similarity { num: 0, den: 1 } };
    }
    let ba = bigrams_of(na);
    let bb = bigrams_of(nb);
    let shared = count_shared(&ba, &bb);
    let num: u128 = 2 * (shared as u128);
    let den: u128 = ((na.len() - 1) as u128) + ((nb.len() - 1) as u128);
    Similarity { num, den }
}

/// Title similarity in 0..=1, ignoring punctuation and case. Chosen over token overlap
/// because anime titles are routinely abbreviated: "Frieren" must still score highly against
/// "Sousou no Frieren".
pub fn similarity(a: &str, b: &str) -> (r: Similarity)
    ensures
        r == dice_spec(normalized(a@), normalized(b@)),
        valid_score(r),
{
    let na = normalize(a);
    let nb = normalize(b);
    dice(na.as_slice(), nb.as_slice())
}

/// Similarity is symmetric.
pub proof fn lemma_similarity_symmetric(a: Seq<char>, b: Seq<char>)
    ensures
        dice_spec(a, b) == dice_spec(b, a),
{
    let ma = bigrams(a).to_multiset();
    let mb = bigrams(b).to_multiset();
    assert(ma.intersection_with(mb) =~= mb.intersection_with(ma));
}

/// A title of at least one letter or digit is fully similar to itself.
pub proof fn lemma_similarity_reflexive(a: Seq<char>)
    requires
        a.len() > 0,
    ensures
        dice_spec(a, a).num == dice_spec(a, a).den,
{
    if a.len() >= 2 {
        let m = bigrams(a).to_multiset();
        assert(m.intersection_with(m) =~= m);
    }
}

// ---------------------------------------------------------------------------
// Choosing a hit
// ---------------------------------------------------------------------------

proof fn lemma_frac_chain(a: Similarity, b: Similarity, c: Similarity)
    requires
        a.den > 0,
        b.den > 0,
        c.den > 0,
        !frac_gt(a, b),
        frac_gt(c, b),
    ensures
        frac_gt(c, a),
{
    let (an, ad, bn, bd, cn, cd) = (a.num as int, a.den as int, b.num as int, b.den as int, c.num as int, c.den as int);
    assert(an * bd * cd <= bn * ad * cd) by (nonlinear_arith) requires an * bd <= bn * ad, cd > 0;
    assert(bn * cd * ad < cn * bd * ad) by (nonlinear_arith) requires bn * cd < cn * bd, ad > 0;
    assert(an * cd * bd < cn * ad * bd) by (nonlinear_arith)
        requires an * bd * cd <= bn * ad * cd, bn * cd * ad < cn * bd * ad;
    assert(an * cd < cn * ad) by (nonlinear_arith) requires an * cd * bd < cn * ad * bd, bd > 0;
}

/// `r` picks the best of `scores`: a score that reaches the threshold, none greater, and the
/// first of equal maxima (so the provider listed first wins a tie); `None` when no score
/// reaches the threshold.
pub open spec fn is_best(scores: Seq<Similarity>, r: Option<int>) -> bool {
    match r {
        None => forall|j: int| 0 <= j < scores.len() ==> !passes(#[trigger] scores[j]),
        Some(i) => {
            &&& 0 <= i < scores.len()
            &&& passes(scores[i])
            &&& forall|j: int| 0 <= j < scores.len() && passes(#[trigger] scores[j]) ==> !frac_gt(scores[j], scores[i])
            &&& forall|j: int| 0 <= j < i && passes(#[trigger] scores[j]) ==> frac_gt(scores[i], scores[j])
        },
    }
}

fn reaches_threshold(s: Similarity) -> (r: bool)
    requires
        s.num <= s.den,
        s.den <= u64::MAX as u128 * 2,
    ensures
        r == passes(s),
{
    s.num * MIN_AUTO_MATCH_DEN >= MIN_AUTO_MATCH_NUM * s.den
}

pub open spec fn valid_score(s: Similarity) -> bool {
    0 < s.den <= u64::MAX as u128 * 2 && s.num <= s.den
}

proof fn lemma_pass_beats_fail(a: Similarity, b: Similarity)
    by (nonlinear_arith)
    requires
        a.den > 0,
        b.den > 0,
        a.num * 20 >= 7 * a.den,
        !(b.num * 20 >= 7 * b.den),
    ensures
        a.num * b.den > b.num * a.den,
{
    assert(a.num * 20 * b.den >= 7 * a.den * b.den);
    assert(b.num * 20 * a.den < 7 * b.den * a.den);
}

/// The best score is a maximum over all scores, strictly above every score listed before
/// it, and `None` means every score is under the threshold.
pub proof fn lemma_best_is_max(scores: Seq<Similarity>, r: Option<int>)
    requires
        forall|j: int| 0 <= j < scores.len() ==> (#[trigger] scores[j]).den > 0,
        is_best(scores, r),
    ensures
        r is None <==> forall|j: int| 0 <= j < scores.len() ==> !passes(#[trigger] scores[j]),
        r matches Some(i) ==> passes(scores[i])
            && (forall|j: int| 0 <= j < scores.len() ==> !frac_gt(#[trigger] scores[j], scores[i]))
            && (forall|j: int| 0 <= j < i ==> frac_gt(scores[i], #[trigger] scores[j])),
{
    if let Some(i) = r {
        assert forall|j: int| 0 <= j < scores.len() implies !frac_gt(#[trigger] scores[j], scores[i]) by {
            if !passes(scores[j]) {
                lemma_pass_beats_fail(scores[i], scores[j]);
            }
        }
        assert forall|j: int| 0 <= j < i implies frac_gt(scores[i], #[trigger] scores[j]) by {
            if !passes(scores[j]) {
                lemma_pass_beats_fail(scores[i], scores[j]);
            }
        }
    }
}

/// The index of the best score, as `is_best` describes it.
pub fn pick_best(scores: &[Similarity]) -> (r: Option<usize>)
    requires
        forall|j: int| 0 <= j < scores@.len() ==> valid_score(#[trigger] scores@[j]),
    ensures
        is_best(scores@, match r { Some(i) => Some(i as int), None => None }),
{
    let mut best: Option<usize> = None;
    let mut k: usize = 0;
    while k < scores.len()
        invariant
            k <= scores@.len(),
            forall|j: int| 0 <= j < scores@.len() ==> valid_score(#[trigger] scores@[j]),
            is_best(scores@.take(k as int), match best { Some(i) => Some(i as int), None => None }),
        decreases scores@.len() - k,
    {
        let cur = scores[k];
        let ghost pre = scores@.take(k as int);
        let ghost post = scores@.take(k + 1);
        assert(post.drop_last() =~= pre);
        assert(post[k as int] == cur);
        if reaches_threshold(cur) {
            match best {
                None => {
                    best = Some(k);
                    assert forall|j: int| 0 <= j < post.len() && passes(#[trigger] post[j]) implies !frac_gt(post[j], post[k as int]) by {
                        if j < k {
                            assert(pre[j] == post[j]);
                        }
                    }
                    assert forall|j: int| 0 <= j < k && passes(#[trigger] post[j]) implies frac_gt(post[k as int], post[j]) by {
                        assert(pre[j] == post[j]);
                    }
                },
                Some(b) => {
                    if more_similar(cur, scores[b]) {
                        best = Some(k);
                        assert forall|j: int| 0 <= j < post.len() && passes(#[trigger] post[j]) implies !frac_gt(post[j], post[k as int]) by {
                            if j < k {
                                assert(pre[j] == post[j]);
                                lemma_frac_chain(post[j], pre[b as int], cur);
                            }
                        }
                        assert forall|j: int| 0 <= j < k && passes(#[trigger] post[j]) implies frac_gt(post[k as int], post[j]) by {
                            assert(pre[j] == post[j]);
                            lemma_frac_chain(post[j], pre[b as int], cur);
                        }
                    } else {
                        assert forall|j: int| 0 <= j < post.len() && passes(#[trigger] post[j]) implies !frac_gt(post[j], post[b as int]) by {
                            if j < k {
                                assert(pre[j] == post[j]);
                            }
                        }
                        assert forall|j: int| 0 <= j < b && passes(#[trigger] post[j]) implies frac_gt(post[b as int], post[j]) by {
                            assert(pre[j] == post[j]);
                        }
                    }
                },
            }
        } else {
            match best {
                None => {
                    assert forall|j: int| 0 <= j < post.len() implies !passes(#[trigger] post[j]) by {
                        if j < k {
                            assert(pre[j] == post[j]);
                        }
                    }
                },
                Some(b) => {
                    assert forall|j: int| 0 <= j < post.len() && passes(#[trigger] post[j]) implies !frac_gt(post[j], post[b as int]) by {
                        if j < k {
                            assert(pre[j] == post[j]);
                        }
                    }
                    assert forall|j: int| 0 <= j < b && passes(#[trigger] post[j]) implies frac_gt(post[b as int], post[j]) by {
                        assert(pre[j] == post[j]);
                    }
                },
            }
        }
        k = k + 1;
    }
    assert(scores@.take(scores@.len() as int) =~= scores@);
    best
}

/// A hit's score against a title: the better of its romaji and English titles.
pub open spec fn hit_score_spec(title: Seq<char>, h: MetadataHit) -> Similarity {
    let r = dice_spec(normalized(title), normalized(h.title_romaji@));
    let e = match h.title_english {
        Some(t) => dice_spec(normalized(title), normalized(t@)),
        None => Similarity { num: 0, den: 1 },
    };
    if frac_gt(e, r) { e } else { r }
}

/// A hit scores as the better of its two titles: never below the similarity of its romaji
/// title, never below that of its English title when it has one, and equal to one of them.
pub proof fn lemma_hit_score_is_best_title(title: Seq<char>, h: MetadataHit)
    ensures
        ({
            let sc = hit_score_spec(title, h);
            let r = dice_spec(normalized(title), normalized(h.title_romaji@));
            &&& !frac_gt(r, sc)
            &&& (h.title_english matches Some(t) ==> !frac_gt(dice_spec(normalized(title), normalized(t@)), sc))
            &&& (sc == r || (h.title_english matches Some(t) && sc == dice_spec(normalized(title), normalized(t@))))
        }),
{
    let r = dice_spec(normalized(title), normalized(h.title_romaji@));
    let e = match h.title_english {
        Some(t) => dice_spec(normalized(title), normalized(t@)),
        None => Similarity { num: 0, den: 1 },
    };
    if h.title_english is None {
        assert(e.num * r.den == 0);
        assert(r.num * e.den == r.num);
        assert(!frac_gt(e, r));
    }
    if frac_gt(e, r) {
        assert(!frac_gt(r, e));
    }
}

pub fn hit_score(title: &str, h: &MetadataHit) -> (r: Similarity)
    ensures
        r == hit_score_spec(title@, *h),
        valid_score(r),
{
    let r = similarity(title, h.title_romaji.as_str());
    let e = match &h.title_english {
        Some(t) => similarity(title, t.as_str()),
        None => Similarity { num: 0, den: 1 },
    };
    if more_similar(e, r) { e } else { r }
}

/// The scores of all hits against a title.
pub open spec fn hit_scores(title: Seq<char>, hits: Seq<MetadataHit>) -> Seq<Similarity> {
    Seq::new(hits.len(), |j: int| hit_score_spec(title, hits[j]))
}

/// The best hit for `title`, or None when nothing is close enough to apply unattended.
/// Equal best scores keep the first hit, so provider order is the tiebreak.
pub fn best_match<'a>(title: &str, hits: &'a [MetadataHit]) -> (r: Option<&'a MetadataHit>)
    ensures
        exists|b: Option<int>| #[trigger] is_best(hit_scores(title@, hits@), b) && match b {
            Some(i) => r == Some(&hits@[i]),
            None => r is None,
        },
        r is None <==> forall|j: int| 0 <= j < hits@.len() ==> !passes(#[trigger] hit_scores(title@, hits@)[j]),
        r is Some ==> exists|i: int| 0 <= i < hits@.len() && r == Some(&hits@[i]) && {
            let sc = hit_scores(title@, hits@);
            &&& passes(sc[i])
            &&& forall|j: int| 0 <= j < hits@.len() ==> !frac_gt(#[trigger] sc[j], sc[i])
            &&& forall|j: int| 0 <= j < i ==> frac_gt(sc[i], #[trigger] sc[j])
        },
{
    let mut scores: Vec<Similarity> = Vec::new();
    let mut k: usize = 0;
    while k < hits.len()
        invariant
            k <= hits@.len(),
            scores@ == hit_scores(title@, hits@).take(k as int),
            forall|j: int| 0 <= j < scores@.len() ==> valid_score(#[trigger] scores@[j]),
        decreases hits@.len() - k,
    {
        let s = hit_score(title, &hits[k]);
        scores.push(s);
        assert(scores@ =~= hit_scores(title@, hits@).take(k + 1));
        k = k + 1;
    }
    assert(scores@ =~= hit_scores(title@, hits@));
    let b = pick_best(scores.as_slice());
    let ghost sc = hit_scores(title@, hits@);
    match b {
        Some(i) => {
            let r = Some(&hits[i]);
            assert(is_best(sc, Some(i as int)));
            proof {
                lemma_best_is_max(sc, Some(i as int));
                assert(r == Some(&hits@[i as int]));
            }
            r
        },
        None => {
            assert(is_best(sc, None::<int>));
            proof { lemma_best_is_max(sc, None::<int>); }
            None
        },
    }
}

/// At most one choice satisfies `is_best`, so `best_match` is determined by it.
pub proof fn lemma_best_unique(scores: Seq<Similarity>, a: Option<int>, b: Option<int>)
    requires
        is_best(scores, a),
        is_best(scores, b),
    ensures
        a == b,
{
    match (a, b) {
        (Some(i), Some(j)) => {
            if i < j {
                assert(frac_gt(scores[j], scores[i]));
            } else if j < i {
                assert(frac_gt(scores[i], scores[j]));
            }
        },
        (Some(i), None) => {
            assert(!passes(scores[i]));
        },
        (None, Some(j)) => {
            assert(!passes(scores[j]));
        },
        (None, None) => {},
    }
}

// ---------------------------------------------------------------------------
// Cover art
// ---------------------------------------------------------------------------

/// What follows the last `c` (all of `s` when there is none), as `rsplit(c).next()`.
pub open spec fn after_last(s: Seq<char>, c: char) -> Seq<char> {
    match last_index_of(s, c) {
        Some(i) => s.subrange(i + 1, s.len() as int),
        None => s,
    }
}

/// The remote extension when it is a plain image one (`png`, `webp`), else `jpg`, so the
/// cached file is recognisable on disk.
pub open spec fn cover_ext(url: Seq<char>) -> Seq<char> {
    let e = ascii_lower_seq(after_last(after_last(url, '/'), '.'));
    if e == "png"@ {
        "png"@
    } else if e == "webp"@ {
        "webp"@
    } else {
        "jpg"@
    }
}

fn after_last_char(s: &[char], c: char) -> (r: Vec<char>)
    ensures
        r@ == after_last(s@, c),
{
    match rfind_char(s, c) {
        Some(i) => {
            assert(i < s.len());
            slice_chars(s, i + 1, s.len())
        },
        None => slice_chars(s, 0, s.len()),
    }
}

fn ascii_lowered(s: &[char]) -> (r: Vec<char>)
    ensures
        r@ == ascii_lower_seq(s@),
{
    let mut out: Vec<char> = Vec::new();
    let mut i: usize = 0;
    while i < s.len()
        invariant
            i <= s@.len(),
            out@.len() == i,
            forall|k: int| 0 <= k < i ==> out@[k] == crate::text::ascii_lower(s@[k]),
        decreases s@.len() - i,
    {
        out.push(to_ascii_lower(s[i]));
        i = i + 1;
    }
    assert(out@ =~= ascii_lower_seq(s@));
    out
}

pub fn cover_extension(url: &str) -> (r: &'static str)
    ensures
        r@ == cover_ext(url@),
{
    let tail = after_last_char(chars_of(url).as_slice(), '/');
    let ext = ascii_lowered(after_last_char(tail.as_slice(), '.').as_slice());
    if crate::text::eq_str(ext.as_slice(), "png") {
        "png"
    } else if crate::text::eq_str(ext.as_slice(), "webp") {
        "webp"
    } else {
        "jpg"
    }
}

/// Where cover art is cached: `covers` under the application's data directory.
pub fn covers_dir(data_dir: &str) -> (r: String)
    ensures
        r@ == crate::dlna::remux::path_join(data_dir@, "covers"@),
{
    crate::dlna::remux::join_path(data_dir, chars_of("covers").as_slice())
}

/// The fields of one AniList `media` entry that a hit is built from, each present only when
/// the entry holds it as the JSON type it is read as.
#[derive(Debug, Clone, PartialEq, Default)]
pub struct AniListRecord {
    /// `id`, an integer.
    pub id: Option<i64>,
    /// `title.romaji`.
    pub title_romaji: Option<String>,
    /// `title.english`.
    pub title_english: Option<String>,
    /// `coverImage.large`.
    pub cover_large: Option<String>,
    /// `episodes`.
    pub episodes: Option<i64>,
}

/// Whether `h` is the hit an entry makes: the entry's id and romaji title (both required),
/// its English title, cover and episode count, with AniList as the source.
pub open spec fn anilist_hit_of(r: AniListRecord, h: MetadataHit) -> bool {
    &&& r.id == Some(h.id)
    &&& h.source@ == SOURCE@
    &&& crate::parser::opt_str(r.title_romaji) == Some(h.title_romaji@)
    &&& crate::parser::opt_str(h.title_english) == crate::parser::opt_str(r.title_english)
    &&& crate::parser::opt_str(h.cover_url) == crate::parser::opt_str(r.cover_large)
    &&& h.episodes == r.episodes
}

/// The hit of one entry; an entry without an id or a romaji title is skipped.
pub fn anilist_hit(r: AniListRecord) -> (h: Option<MetadataHit>)
    ensures
        (r.id is None || r.title_romaji is None) ==> h is None,
        (r.id is Some && r.title_romaji is Some) ==> (h matches Some(x) && anilist_hit_of(r, x)),
{
    match (r.id, r.title_romaji) {
        (Some(id), Some(t)) => Some(MetadataHit {
            id,
            source: string_of(chars_of(SOURCE).as_slice()),
            title_romaji: t,
            title_english: r.title_english,
            cover_url: r.cover_large,
            episodes: r.episodes,
        }),
        _ => None,
    }
}

/// The usable entries of a search answer, in order.
pub open spec fn usable(rs: Seq<AniListRecord>) -> Seq<AniListRecord>
    decreases rs.len(),
{
    if rs.len() == 0 {
        Seq::<AniListRecord>::empty()
    } else if rs.last().id is Some && rs.last().title_romaji is Some {
        usable(rs.drop_last()).push(rs.last())
    } else {
        usable(rs.drop_last())
    }
}

/// The hits of a search answer's entries, in order, the unusable ones skipped.
pub fn anilist_hits(records: Vec<AniListRecord>) -> (r: Vec<MetadataHit>)
    ensures
        r@.len() == usable(records@).len(),
        forall|i: int| 0 <= i < r@.len() ==> anilist_hit_of(usable(records@)[i], #[trigger] r@[i]),
{
    let mut out: Vec<MetadataHit> = Vec::new();
    let mut rest = records;
    let ghost input = rest@;
    let n = rest.len();
    let mut i: usize = 0;
    while i < n
        invariant
            n == input.len(),
            i <= n,
            rest@ == input.skip(i as int),
            out@.len() == usable(input.take(i as int)).len(),
            forall|j: int| 0 <= j < out@.len() ==> anilist_hit_of(usable(input.take(i as int))[j], #[trigger] out@[j]),
        decreases n - i,
    {
        let rec = rest.remove(0);
        assert(rec == input[i as int]);
        assert(input.take(i + 1).drop_last() =~= input.take(i as int));
        assert(input.take(i + 1).last() == input[i as int]);
        let ghost before = out@;
        let ghost rv = rec;
        match anilist_hit(rec) {
            Some(h) => {
                out.push(h);
                proof {
                    let u = usable(input.take(i + 1));
                    assert forall|j: int| 0 <= j < out@.len() implies anilist_hit_of(u[j], #[trigger] out@[j]) by {
                        if j < before.len() {
                            assert(out@[j] == before[j]);
                        }
                    }
                }
            },
            None => {},
        }
        i = i + 1;
    }
    assert(input.take(n as int) =~= input);
    out
}

} // verus!
