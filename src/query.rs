//! The keywords of a query: a raw input split on spaces, commas and
//! semicolons, each piece trimmed, empty pieces dropped.
use vstd::prelude::*;
use crate::convert::{chars_of, string_of};
use crate::text::{trim, trim_chars};

verus! {

/// The characters that separate keywords in a raw query.
pub open spec fn is_separator(c: char) -> bool {
    c == ' ' || c == ',' || c == ';'
}

/// The pieces of `s` between separators, in order.
pub open spec fn pieces(s: Seq<char>) -> Seq<Seq<char>>
    decreases s.len(),
{
    if s.len() == 0 {
        seq![Seq::<char>::empty()]
    } else {
        let init = pieces(s.drop_last());
        if is_separator(s.last()) {
            init.push(Seq::<char>::empty())
        } else {
            init.update(init.len() - 1, init.last().push(s.last()))
        }
    }
}

/// The trimmed forms of `xs`, in order, the empty ones dropped.
pub open spec fn trimmed_nonempty(xs: Seq<Seq<char>>) -> Seq<Seq<char>>
    decreases xs.len(),
{
    if xs.len() == 0 {
        Seq::empty()
    } else {
        let r = trimmed_nonempty(xs.drop_last());
        if trim(xs.last()).len() > 0 {
            r.push(trim(xs.last()))
        } else {
            r
        }
    }
}

/// The keywords of the raw query `raw`.
pub open spec fn keywords_of(raw: Seq<char>) -> Seq<Seq<char>> {
    trimmed_nonempty(pieces(raw))
}

/// A query that holds no keyword.
#[derive(Debug, Clone, Copy, PartialEq, Eq, Structural)]
pub enum QueryError {
    NoKeyword,
}

impl QueryError {
    /// A message for the user.
    pub fn message(&self) -> String {
        String::from_str("no valid keyword was given")
    }
}

/// The model of a vector of strings.
pub open spec fn strings_view(v: Seq<String>) -> Seq<Seq<char>> {
    Seq::new(v.len(), |i: int| v[i]@)
}

/// Splits the raw query `raw` into its keywords; fails when there is none.
pub fn parse_keywords(raw: &str) -> (r: Result<Vec<String>, QueryError>)
    ensures
        r is Err <==> keywords_of(raw@).len() == 0,
        r matches Ok(ks) ==> strings_view(ks@) == keywords_of(raw@),
{
    let s = chars_of(raw);
    let mut done: Vec<String> = Vec::new();
    let mut cur: Vec<char> = Vec::new();
    let mut i: usize = 0;
    proof {
        assert(s@.take(0) =~= Seq::<char>::empty());
        assert(strings_view(done@) =~= Seq::<Seq<char>>::empty());
    }
    while i < s.len()
        invariant
            s@ == raw@,
            0 <= i <= s@.len(),
            pieces(s@.take(i as int)).len() >= 1,
            cur@ == pieces(s@.take(i as int)).last(),
            strings_view(done@) == trimmed_nonempty(pieces(s@.take(i as int)).drop_last()),
        decreases s@.len() - i,
    {
        let c = s[i];
        let ghost old_pieces = pieces(s@.take(i as int));
        proof {
            assert(s@.take(i + 1).drop_last() =~= s@.take(i as int));
        }
        if c == ' ' || c == ',' || c == ';' {
            let t = trim_chars(&cur);
            if t.len() > 0 {
                let ghost prev = strings_view(done@);
                done.push(string_of(&t));
                assert(strings_view(done@) =~= prev.push(t@));
            }
            cur = Vec::new();
            assert(pieces(s@.take(i + 1)).drop_last() =~= old_pieces);
        } else {
            cur.push(c);
            assert(pieces(s@.take(i + 1)).drop_last() =~= old_pieces.drop_last());
        }
        i = i + 1;
    }
    proof {
        assert(s@.take(i as int) =~= s@);
        assert(pieces(s@) =~= pieces(s@).drop_last().push(pieces(s@).last()));
    }
    let t = trim_chars(&cur);
    if t.len() > 0 {
        let ghost prev = strings_view(done@);
        done.push(string_of(&t));
        assert(strings_view(done@) =~= prev.push(t@));
    }
    if done.len() == 0 {
        Err(QueryError::NoKeyword)
    } else {
        Ok(done)
    }
}

} // verus!
