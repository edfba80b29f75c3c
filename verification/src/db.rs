//! Pure pieces of the library database: LIKE escaping, the display-title expression.
use vstd::prelude::*;

verus! {

/// Whether an upsert created a new episode row or updated an existing one.
#[derive(Debug, Clone, Copy, PartialEq, Eq)]
pub enum Upsert {
    Added,
    Updated,
}

pub open spec fn like_special(c: char) -> bool {
    c == '\\' || c == '%' || c == '_'
}

/// Text for a `LIKE ... ESCAPE '\'` pattern that matches `s` literally: each `\`, `%` and `_`
/// gets a backslash.
pub open spec fn escape_like_spec(s: Seq<char>) -> Seq<char>
    decreases s.len(),
{
    if s.len() == 0 {
        Seq::empty()
    } else if like_special(s.last()) {
        escape_like_spec(s.drop_last()) + seq!['\\', s.last()]
    } else {
        escape_like_spec(s.drop_last()).push(s.last())
    }
}

pub fn escape_like(s: &str) -> (r: String)
    ensures
        r@ == escape_like_spec(s@),
{
    let c = crate::text::chars_of(s);
    let mut out: Vec<char> = Vec::new();
    let mut i: usize = 0;
    while i < c.len()
        invariant
            i <= c@.len(),
            out@ == escape_like_spec(c@.subrange(0, i as int)),
        decreases c@.len() - i,
    {
        let ch = c[i];
        if ch == '\\' || ch == '%' || ch == '_' {
            out.push('\\');
        }
        out.push(ch);
        proof {
            let t = c@.subrange(0, i + 1);
            assert(t.drop_last() =~= c@.subrange(0, i as int));
            assert(t.last() == ch);
            assert(out@ =~= escape_like_spec(t));
        }
        i = i + 1;
    }
    assert(c@.subrange(0, c@.len() as int) =~= c@);
    crate::text::string_of(out.as_slice())
}

/// The SQL expression for a show's display title: the user's override, else the matched
/// title, else the parsed one.
pub fn display_title_sql() -> (r: &'static str)
    ensures
        r@ == "COALESCE(user_title_override, canonical_title, parsed_title)"@,
{
    "COALESCE(user_title_override, canonical_title, parsed_title)"
}

} // verus!
