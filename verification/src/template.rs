use vstd::prelude::*;
use vstd::string::StrSliceExecFns;
use vstd::string::StringExecFns;

use crate::data::DataRow;

verus! {

/// `pat` occurs in `t` starting at position `i`.
pub open spec fn occurs_at(t: Seq<char>, pat: Seq<char>, i: int) -> bool {
    &&& 0 <= i
    &&& i + pat.len() <= t.len()
    &&& t.subrange(i, i + pat.len()) == pat
}

/// `pat` occurs somewhere in `t`.
pub open spec fn occurs(t: Seq<char>, pat: Seq<char>) -> bool {
    exists|i: int| occurs_at(t, pat, i)
}

/// `p` stands at the front of `t`.
pub open spec fn is_prefix(p: Seq<char>, t: Seq<char>) -> bool {
    p.len() <= t.len() && t.subrange(0, p.len() as int) == p
}

/// The literal `${key}` token for a column name.
pub open spec fn placeholder(key: Seq<char>) -> Seq<char> {
    seq!['$', '{'] + key + seq!['}']
}

/// The first pair of the row whose `${name}` token stands at the front of
/// `t`; `None` when no pair's token does. Taking the row's first such pair
/// makes the choice deterministic even when one pair's token is a prefix of
/// another's.
pub open spec fn front_token_match(t: Seq<char>, pairs: Seq<(Seq<char>, Seq<char>)>) -> Option<
    (Seq<char>, Seq<char>),
>
    decreases pairs.len(),
{
    if pairs.len() == 0 {
        None
    } else if is_prefix(placeholder(pairs[0].0), t) {
        Some(pairs[0])
    } else {
        front_token_match(t, pairs.skip(1))
    }
}

/// A front match is witnessed by some pair of the row, whose token is a
/// prefix of `t`.
pub proof fn lemma_front_token_match_some(t: Seq<char>, pairs: Seq<(Seq<char>, Seq<char>)>)
    requires
        front_token_match(t, pairs) is Some,
    ensures
        exists|j: int|
            0 <= j < pairs.len() && front_token_match(t, pairs) == Some(#[trigger] pairs[j])
                && is_prefix(placeholder(pairs[j].0), t),
    decreases pairs.len(),
{
    if pairs.len() > 0 {
        if is_prefix(placeholder(pairs[0].0), t) {
            assert(front_token_match(t, pairs) == Some(pairs[0]));
        } else {
            lemma_front_token_match_some(t, pairs.skip(1));
            let j = choose|j: int|
                0 <= j < pairs.skip(1).len() && front_token_match(t, pairs.skip(1)) == Some(
                    #[trigger] pairs.skip(1)[j],
                ) && is_prefix(placeholder(pairs.skip(1)[j].0), t);
            assert(pairs.skip(1)[j] == pairs[j + 1]);
        }
    }
}

/// The result of substituting a row into a template in one left-to-right
/// pass: wherever the token of some pair stands (the row's first such pair
/// deciding), the pair's value is emitted and the scan continues just after
/// the token; emitted text is never rescanned. Every other character is
/// copied unchanged.
pub open spec fn substitute_all(t: Seq<char>, pairs: Seq<(Seq<char>, Seq<char>)>) -> Seq<char>
    decreases t.len(),
    via substitute_all_decreases
{
    if t.len() == 0 {
        t
    } else {
        match front_token_match(t, pairs) {
            Some(p) => p.1 + substitute_all(t.skip(placeholder(p.0).len() as int), pairs),
            None => seq![t[0]] + substitute_all(t.skip(1), pairs),
        }
    }
}

#[via_fn]
proof fn substitute_all_decreases(t: Seq<char>, pairs: Seq<(Seq<char>, Seq<char>)>) {
    if t.len() > 0 && front_token_match(t, pairs) is Some {
        lemma_front_token_match_some(t, pairs);
    }
}

/// Substitution leaves a template unchanged when none of the row's `${name}`
/// tokens occurs in it, whatever the row's values.
pub proof fn lemma_substitute_all_absent(t: Seq<char>, pairs: Seq<(Seq<char>, Seq<char>)>)
    requires
        forall|j: int| 0 <= j < pairs.len() ==> !occurs(t, placeholder(#[trigger] pairs[j].0)),
    ensures
        substitute_all(t, pairs) == t,
    decreases t.len(),
{
    if t.len() > 0 {
        if front_token_match(t, pairs) is Some {
            lemma_front_token_match_some(t, pairs);
            let j = choose|j: int|
                0 <= j < pairs.len() && front_token_match(t, pairs) == Some(#[trigger] pairs[j])
                    && is_prefix(placeholder(pairs[j].0), t);
            assert(occurs_at(t, placeholder(pairs[j].0), 0));
            assert(false);
        }
        assert forall|j: int|
            0 <= j < pairs.len() implies !occurs(t.skip(1), placeholder(#[trigger] pairs[j].0)) by {
            let ph = placeholder(pairs[j].0);
            if occurs(t.skip(1), ph) {
                let i = choose|i: int| occurs_at(t.skip(1), ph, i);
                assert(t.subrange(i + 1, i + 1 + ph.len()) =~= t.skip(1).subrange(i, i + ph.len()));
                assert(occurs_at(t, ph, i + 1));
            }
        }
        lemma_substitute_all_absent(t.skip(1), pairs);
        assert(seq![t[0]] + t.skip(1) =~= t);
    }
}

/// Substitution is the identity on a template in which the two characters
/// `${` never occur in this order: every placeholder token begins with
/// `${`, so no token can occur either.
pub proof fn lemma_substitute_no_tokens(t: Seq<char>, pairs: Seq<(Seq<char>, Seq<char>)>)
    requires
        !occurs(t, seq!['$', '{']),
    ensures
        substitute_all(t, pairs) == t,
{
    assert forall|j: int|
        0 <= j < pairs.len() implies !occurs(t, placeholder(#[trigger] pairs[j].0)) by {
        let ph = placeholder(pairs[j].0);
        if occurs(t, ph) {
            let i = choose|i: int| occurs_at(t, ph, i);
            assert(t.subrange(i, i + ph.len())[0] == ph[0]);
            assert(t.subrange(i, i + ph.len())[1] == ph[1]);
            assert(t.subrange(i, i + 2) =~= seq!['$', '{']);
            assert(occurs_at(t, seq!['$', '{'], i));
        }
    }
    lemma_substitute_all_absent(t, pairs);
}

/// Whether `pat` occurs in `t` at position `i`, by character comparison.
fn matches_at(t: &str, t_len: usize, i: usize, pat: &str, p_len: usize) -> (r: bool)
    requires
        t_len == t@.len(),
        p_len == pat@.len(),
        i + p_len <= t_len,
    ensures
        r == (t@.subrange(i as int, i + pat@.len()) == pat@),
{
    let mut j: usize = 0;
    while j < p_len
        invariant
            j <= p_len,
            t_len == t@.len(),
            p_len == pat@.len(),
            i + p_len <= t_len,
            forall|k: int| 0 <= k < j ==> t@[i + k] == pat@[k],
        decreases p_len - j,
    {
        if t.get_char(i + j) != pat.get_char(j) {
            proof {
                assert(t@.subrange(i as int, i + pat@.len())[j as int] == t@[i + j]);
            }
            return false;
        }
        j = j + 1;
    }
    proof {
        assert(t@.subrange(i as int, i + pat@.len()) =~= pat@);
    }
    true
}

/// Build the literal `${key}` token.
fn placeholder_token(key: &str) -> (r: String)
    ensures
        r@ == placeholder(key@),
{
    proof {
        reveal_strlit("${");
        reveal_strlit("}");
    }
    let mut r = String::from_str("${");
    r.append(key);
    r.append("}");
    proof {
        assert(r@ =~= placeholder(key@));
    }
    r
}

/// The index of the row's first pair whose token stands at position `i` of
/// `t`, as `front_token_match` picks it for the rest of `t`.
fn first_token_at(t: &str, t_len: usize, i: usize, row: &DataRow) -> (r: Option<usize>)
    requires
        t_len == t@.len(),
        i <= t_len,
    ensures
        match r {
            Some(k) => {
                &&& 0 <= k < row.pairs@.len()
                &&& front_token_match(t@.skip(i as int), row.pairs_view()) == Some(
                    row.pairs_view()[k as int],
                )
                &&& is_prefix(placeholder(row.pairs@[k as int].0@), t@.skip(i as int))
            },
            None => front_token_match(t@.skip(i as int), row.pairs_view()) is None,
        },
{
    let ghost rest = t@.skip(i as int);
    let ghost pv = row.pairs_view();
    let n = row.pairs.len();
    let mut k: usize = 0;
    proof {
        assert(pv.skip(0) =~= pv);
    }
    while k < n
        invariant
            k <= n,
            n == row.pairs@.len(),
            t_len == t@.len(),
            i <= t_len,
            rest == t@.skip(i as int),
            pv == row.pairs_view(),
            front_token_match(rest, pv) == front_token_match(rest, pv.skip(k as int)),
        decreases n - k,
    {
        let tok = placeholder_token(row.pairs[k].0.as_str());
        let tok_len = tok.as_str().unicode_len();
        proof {
            assert(pv.skip(k as int)[0] == pv[k as int]);
            assert(pv[k as int] == (row.pairs@[k as int].0@, row.pairs@[k as int].1@));
        }
        if tok_len <= t_len - i {
            if matches_at(t, t_len, i, tok.as_str(), tok_len) {
                proof {
                    assert(rest.subrange(0, tok@.len() as int) =~= t@.subrange(
                        i as int,
                        i + tok@.len(),
                    ));
                    assert(is_prefix(placeholder(pv[k as int].0), rest));
                }
                return Some(k);
            }
        }
        proof {
            if tok@.len() <= rest.len() {
                assert(rest.subrange(0, tok@.len() as int) =~= t@.subrange(
                    i as int,
                    i + tok@.len(),
                ));
            }
            assert(!is_prefix(placeholder(pv[k as int].0), rest));
            assert(pv.skip(k as int).skip(1) =~= pv.skip(k + 1));
        }
        k = k + 1;
    }
    proof {
        assert(pv.skip(n as int) =~= Seq::<(Seq<char>, Seq<char>)>::empty());
    }
    None
}

/// Substitute the row into the template in one left-to-right pass: wherever
/// some pair's `${name}` token stands, emit that pair's value and continue
/// after the token, so substituted text is never rescanned. Tokens that
/// match no pair of the row pass through unchanged.
pub fn replace_placeholders(template: &str, row: &DataRow) -> (r: String)
    ensures
        r@ == substitute_all(template@, row.pairs_view()),
{
    let t_len = template.unicode_len();
    let ghost pv = row.pairs_view();
    let mut out = String::new();
    let mut i: usize = 0;
    proof {
        assert(template@.skip(0) =~= template@);
        assert(out@ + substitute_all(template@, pv) =~= substitute_all(template@, pv));
    }
    while i < t_len
        invariant
            i <= t_len,
            t_len == template@.len(),
            pv == row.pairs_view(),
            substitute_all(template@, pv) == out@ + substitute_all(template@.skip(i as int), pv),
        decreases t_len - i,
    {
        let ghost rest = template@.skip(i as int);
        match first_token_at(template, t_len, i, row) {
            Some(k) => {
                let tok = placeholder_token(row.pairs[k].0.as_str());
                let tok_len = tok.as_str().unicode_len();
                proof {
                    assert(pv[k as int] == (row.pairs@[k as int].0@, row.pairs@[k as int].1@));
                    assert(substitute_all(rest, pv) == pv[k as int].1 + substitute_all(
                        rest.skip(tok@.len() as int),
                        pv,
                    ));
                    assert(rest.skip(tok@.len() as int) =~= template@.skip(i + tok_len));
                    assert((out@ + pv[k as int].1) + substitute_all(
                        template@.skip(i + tok_len),
                        pv,
                    ) =~= out@ + (pv[k as int].1 + substitute_all(template@.skip(i + tok_len), pv)));
                }
                out.append(row.pairs[k].1.as_str());
                i = i + tok_len;
            }
            None => {
                proof {
                    assert(rest[0] == template@[i as int]);
                    assert(substitute_all(rest, pv) == seq![rest[0]] + substitute_all(
                        rest.skip(1),
                        pv,
                    ));
                    assert(rest.skip(1) =~= template@.skip(i + 1));
                    assert(template@.subrange(i as int, i + 1) =~= seq![template@[i as int]]);
                    assert((out@ + seq![template@[i as int]]) + substitute_all(
                        template@.skip(i + 1),
                        pv,
                    ) =~= out@ + (seq![template@[i as int]] + substitute_all(
                        template@.skip(i + 1),
                        pv,
                    )));
                }
                let c = template.substring_char(i, i + 1);
                out.append(c);
                i = i + 1;
            }
        }
    }
    proof {
        assert(template@.skip(t_len as int) =~= Seq::<char>::empty());
        assert(out@ + substitute_all(template@.skip(t_len as int), pv) =~= out@);
    }
    out
}

} // verus!
