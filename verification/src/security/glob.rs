//! Glob patterns where `*` stands for any run of characters (possibly none)
//! and `?` for exactly one character; every other character stands for itself.

use vstd::prelude::*;
use crate::text::str_chars;

verus! {

/// Whether the pattern suffix starting at `pi` matches the text suffix
/// starting at `ti`.
pub open spec fn matches_from(p: Seq<char>, t: Seq<char>, pi: int, ti: int) -> bool
    recommends
        0 <= pi <= p.len(),
        0 <= ti <= t.len(),
    decreases p.len() - pi, t.len() - ti,
    when 0 <= pi <= p.len() && 0 <= ti <= t.len()
{
    if pi == p.len() {
        ti == t.len()
    } else if p[pi] == '*' {
        matches_from(p, t, pi + 1, ti) || (ti < t.len() && matches_from(p, t, pi, ti + 1))
    } else if ti == t.len() {
        false
    } else {
        (p[pi] == '?' || p[pi] == t[ti]) && matches_from(p, t, pi + 1, ti + 1)
    }
}

/// Whether the whole text matches the whole pattern.
pub open spec fn glob_matches(p: Seq<char>, t: Seq<char>) -> bool {
    matches_from(p, t, 0, 0)
}

/// A `*` at `pi` matches from `ti` exactly when the rest of the pattern
/// matches from some position at or after `ti`.
proof fn lemma_star(p: Seq<char>, t: Seq<char>, pi: int, ti: int)
    requires
        0 <= pi < p.len(),
        p[pi] == '*',
        0 <= ti <= t.len(),
    ensures
        matches_from(p, t, pi, ti) <==> exists|i: int|
            ti <= i <= t.len() && #[trigger] matches_from(p, t, pi + 1, i),
    decreases t.len() - ti,
{
    assert(matches_from(p, t, pi, ti) == (matches_from(p, t, pi + 1, ti) || (ti < t.len()
        && matches_from(p, t, pi, ti + 1))));
    if matches_from(p, t, pi + 1, ti) {
        assert(ti <= ti <= t.len() && matches_from(p, t, pi + 1, ti));
    }
    if ti < t.len() {
        lemma_star(p, t, pi, ti + 1);
        if matches_from(p, t, pi, ti + 1) {
            let i = choose|i: int| ti + 1 <= i <= t.len() && #[trigger] matches_from(p, t, pi + 1, i);
            assert(ti <= i <= t.len() && matches_from(p, t, pi + 1, i));
        }
        if exists|i: int| ti <= i <= t.len() && #[trigger] matches_from(p, t, pi + 1, i) {
            let i = choose|i: int| ti <= i <= t.len() && #[trigger] matches_from(p, t, pi + 1, i);
            if i != ti {
                assert(ti + 1 <= i <= t.len() && matches_from(p, t, pi + 1, i));
            }
        }
    } else {
        if exists|i: int| ti <= i <= t.len() && #[trigger] matches_from(p, t, pi + 1, i) {
            let i = choose|i: int| ti <= i <= t.len() && #[trigger] matches_from(p, t, pi + 1, i);
            assert(i == ti);
        }
    }
}

/// Matches `pattern[pi..]` against `text[ti..]`, trying every split for `*`.
pub fn glob_match_recursive(pattern: &Vec<char>, text: &Vec<char>, pi: usize, ti: usize) -> (r: bool)
    requires
        pi <= pattern.len(),
        ti <= text.len(),
    ensures
        r == matches_from(pattern@, text@, pi as int, ti as int),
    decreases pattern.len() - pi,
{
    if pi == pattern.len() && ti == text.len() {
        return true;
    }
    if pi == pattern.len() {
        return false;
    }
    if pattern[pi] == '*' {
        proof {
            lemma_star(pattern@, text@, pi as int, ti as int);
        }
        let mut i = ti;
        loop
            invariant
                pi < pattern.len(),
                ti <= i <= text.len(),
                forall|j: int| ti <= j < i ==> !#[trigger] matches_from(pattern@, text@, pi + 1, j),
                matches_from(pattern@, text@, pi as int, ti as int) <==> exists|j: int|
                    ti <= j <= text.len() && #[trigger] matches_from(pattern@, text@, pi + 1, j),
            decreases text.len() - i,
        {
            if glob_match_recursive(pattern, text, pi + 1, i) {
                return true;
            }
            if i == text.len() {
                proof {
                    assert forall|j: int| ti <= j <= text.len() implies !#[trigger] matches_from(
                        pattern@,
                        text@,
                        pi + 1,
                        j,
                    ) by {
                        if j == i {
                        }
                    }
                }
                return false;
            }
            i = i + 1;
        }
    }
    if ti == text.len() {
        return false;
    }
    if pattern[pi] == '?' || pattern[pi] == text[ti] {
        return glob_match_recursive(pattern, text, pi + 1, ti + 1);
    }
    false
}

/// Matches a whole text against a whole glob pattern.
pub fn glob_match(pattern: &str, text: &str) -> (r: bool)
    ensures
        r == glob_matches(pattern@, text@),
{
    let pattern_chars = str_chars(pattern);
    let text_chars = str_chars(text);
    glob_match_recursive(&pattern_chars, &text_chars, 0, 0)
}

/// Whether some pattern of the list matches the whole text.
pub open spec fn any_matches(patterns: Seq<Seq<char>>, text: Seq<char>) -> bool {
    exists|i: int| 0 <= i < patterns.len() && #[trigger] glob_matches(patterns[i], text)
}

/// Checks whether some pattern of the list matches the text.
pub fn any_pattern_matches(patterns: &Vec<String>, text: &Vec<char>) -> (r: bool)
    ensures
        r == any_matches(patterns.deep_view(), text@),
{
    let mut i: usize = 0;
    while i < patterns.len()
        invariant
            i <= patterns.len(),
            forall|j: int| 0 <= j < i ==> !#[trigger] glob_matches(patterns.deep_view()[j], text@),
        decreases patterns.len() - i,
    {
        let p = str_chars(patterns[i].as_str());
        if glob_match_recursive(&p, text, 0, 0) {
            proof {
                assert(glob_matches(patterns.deep_view()[i as int], text@));
            }
            return true;
        }
        i = i + 1;
    }
    false
}

} // verus!

verus! {

proof fn lemma_star_from(t: Seq<char>, ti: int)
    requires
        0 <= ti <= t.len(),
    ensures
        matches_from(seq!['*'], t, 0, ti),
    decreases t.len() - ti,
{
    let p = seq!['*'];
    if ti < t.len() {
        lemma_star_from(t, ti + 1);
    }
    assert(matches_from(p, t, 1, t.len() as int));
}

/// The pattern `*` matches every text.
pub proof fn law_star_matches_everything(t: Seq<char>)
    ensures
        glob_matches(seq!['*'], t),
{
    lemma_star_from(t, 0);
}

/// Whether a pattern has no wildcard in it.
pub open spec fn plain(p: Seq<char>) -> bool {
    forall|i: int| 0 <= i < p.len() ==> p[i] != '*' && p[i] != '?'
}

proof fn lemma_plain_from(p: Seq<char>, t: Seq<char>, pi: int, ti: int)
    requires
        plain(p),
        0 <= pi <= p.len(),
        0 <= ti <= t.len(),
    ensures
        matches_from(p, t, pi, ti) <==> p.skip(pi) == t.skip(ti),
    decreases p.len() - pi,
{
    if pi == p.len() {
        if ti < t.len() {
            assert(t.skip(ti).len() > 0);
        } else {
            assert(t.skip(ti) =~= p.skip(pi));
        }
    } else if ti == t.len() {
        assert(p.skip(pi).len() > 0);
    } else {
        lemma_plain_from(p, t, pi + 1, ti + 1);
        if p[pi] == t[ti] {
            if p.skip(pi + 1) == t.skip(ti + 1) {
                assert(p.skip(pi + 1).len() == t.skip(ti + 1).len());
                assert(p.skip(pi).len() == t.skip(ti).len());
                assert(p.skip(pi) =~= t.skip(ti)) by {
                    assert forall|k: int| 0 <= k < p.skip(pi).len() implies #[trigger] p.skip(pi)[k] == t.skip(ti)[k] by {
                        if k > 0 {
                            assert(p.skip(pi)[k] == p.skip(pi + 1)[k - 1]);
                            assert(t.skip(ti)[k] == t.skip(ti + 1)[k - 1]);
                        }
                    }
                }
            }
            if p.skip(pi) == t.skip(ti) {
                assert(p.skip(pi).len() == t.skip(ti).len());
                assert(p.skip(pi + 1).len() == t.skip(ti + 1).len());
                assert(p.skip(pi + 1) =~= t.skip(ti + 1)) by {
                    assert forall|k: int| 0 <= k < p.skip(pi + 1).len() implies #[trigger] p.skip(pi + 1)[k] == t.skip(ti + 1)[k] by {
                        assert(p.skip(pi)[k + 1] == t.skip(ti)[k + 1]);
                        assert(p.skip(pi)[k + 1] == p.skip(pi + 1)[k]);
                        assert(t.skip(ti)[k + 1] == t.skip(ti + 1)[k]);
                    }
                }
            }
        } else {
            if p.skip(pi) == t.skip(ti) {
                assert(p.skip(pi)[0] == t.skip(ti)[0]);
            }
        }
    }
}

/// A pattern without wildcards matches exactly the text it spells.
pub proof fn law_plain_pattern_matches_only_itself(p: Seq<char>, t: Seq<char>)
    requires
        plain(p),
    ensures
        glob_matches(p, t) <==> p == t,
{
    lemma_plain_from(p, t, 0, 0);
    assert(p.skip(0) =~= p);
    assert(t.skip(0) =~= t);
}

} // verus!

verus! {

/// The pattern `?` matches exactly the texts of one character.
pub proof fn law_question_mark_matches_one_char(t: Seq<char>)
    ensures
        glob_matches(seq!['?'], t) <==> t.len() == 1,
{
    let p = seq!['?'];
    if t.len() >= 1 {
        assert(matches_from(p, t, 0, 0) == matches_from(p, t, 1, 1));
    }
}

} // verus!
