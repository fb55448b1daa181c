//! Template filename matching. A file is a template when its name has
//! the shape `name.<token>.ext` or `name.<token>`; the matched token is
//! removed to obtain the output name, or replaced to rename templates.
use vstd::prelude::*;

use crate::strutil::{chars_vec, push_all, push_range, string_from_chars};

verus! {

/// The pattern stands at position `p` of `s`.
pub open spec fn match_at(s: Seq<char>, pat: Seq<char>, p: int) -> bool {
    &&& 0 <= p
    &&& p + pat.len() <= s.len()
    &&& s.subrange(p, p + pat.len()) == pat
}

/// The last position at or before `p` where the pattern stands.
pub open spec fn rfind_from(s: Seq<char>, pat: Seq<char>, p: int) -> Option<int>
    decreases p + 1,
{
    if p < 0 {
        None
    } else if match_at(s, pat, p) {
        Some(p)
    } else {
        rfind_from(s, pat, p - 1)
    }
}

/// `.token.`, the mid-filename shape.
pub open spec fn mid_pat(token: Seq<char>) -> Seq<char> {
    seq!['.'] + token + seq!['.']
}

/// `.token`, the suffix shape.
pub open spec fn end_pat(token: Seq<char>) -> Seq<char> {
    seq!['.'] + token
}

/// The output name of a template filename: the last `.token.` collapses
/// to a single dot, else a trailing `.token` is dropped; `None` when the
/// token does not occur in either shape.
pub open spec fn out_name_spec(s: Seq<char>, token: Seq<char>) -> Option<Seq<char>> {
    let pat = mid_pat(token);
    match rfind_from(s, pat, s.len() - pat.len()) {
        Some(p) => Some(s.subrange(0, p) + seq!['.'] + s.subrange(p + pat.len(), s.len() as int)),
        None => {
            let ep = end_pat(token);
            if s.len() >= ep.len() && match_at(s, ep, s.len() - ep.len()) {
                Some(s.subrange(0, s.len() - ep.len()))
            } else {
                None
            }
        },
    }
}

/// The filename with the old token replaced by the new one, first at the
/// last mid-filename position, then at the suffix; a name without the old
/// token is unchanged.
pub open spec fn rewrite_name_spec(s: Seq<char>, oldt: Seq<char>, newt: Seq<char>) -> Seq<char> {
    let pat = mid_pat(oldt);
    let s1 = match rfind_from(s, pat, s.len() - pat.len()) {
        Some(p) => s.subrange(0, p) + mid_pat(newt) + s.subrange(p + pat.len(), s.len() as int),
        None => s,
    };
    let ep = end_pat(oldt);
    if s1.len() >= ep.len() && match_at(s1, ep, s1.len() - ep.len()) {
        s1.subrange(0, s1.len() - ep.len()) + end_pat(newt)
    } else {
        s1
    }
}

/// Whether the pattern stands at position `p`.
fn match_at_exec(s: &Vec<char>, pat: &Vec<char>, p: usize) -> (r: bool)
    requires
        p + pat@.len() <= s@.len(),
    ensures
        r == match_at(s@, pat@, p as int),
{
    let n = s.len();
    let mut k: usize = 0;
    while k < pat.len()
        invariant
            k <= pat@.len(),
            n == s@.len(),
            p + pat@.len() <= n,
            forall|j: int| 0 <= j < k ==> s@[p + j] == pat@[j],
        decreases pat@.len() - k,
    {
        if s[p + k] != pat[k] {
            proof {
                let sub = s@.subrange(p as int, p + pat@.len());
                assert(sub[k as int] == s@[p + k]);
            }
            return false;
        }
        k = k + 1;
    }
    proof {
        assert(s@.subrange(p as int, p + pat@.len()) =~= pat@);
    }
    true
}

/// The last position where the pattern stands in `s`, if any.
fn rfind_pat(s: &Vec<char>, pat: &Vec<char>) -> (r: Option<usize>)
    ensures
        match rfind_from(s@, pat@, s@.len() - pat@.len()) {
            Some(p) => r matches Some(x) && x == p && p + pat@.len() <= s@.len(),
            None => r is None,
        },
{
    if pat.len() > s.len() {
        return None;
    }
    let start: usize = s.len() - pat.len();
    let mut p: usize = start;
    loop
        invariant
            p <= start,
            start == s@.len() - pat@.len(),
            start + pat@.len() == s@.len(),
            rfind_from(s@, pat@, start as int) == rfind_from(s@, pat@, p as int),
        decreases p,
    {
        if match_at_exec(s, pat, p) {
            return Some(p);
        }
        if p == 0 {
            proof {
                assert(rfind_from(s@, pat@, -1) is None);
                assert(rfind_from(s@, pat@, 0) is None);
            }
            return None;
        }
        p = p - 1;
    }
}

/// Build `.token.` as characters.
fn mid_pat_exec(token: &Vec<char>) -> (r: Vec<char>)
    ensures
        r@ == mid_pat(token@),
{
    let mut pat: Vec<char> = Vec::new();
    pat.push('.');
    push_all(&mut pat, token);
    pat.push('.');
    assert(pat@ =~= mid_pat(token@));
    pat
}

/// Build `.token` as characters.
fn end_pat_exec(token: &Vec<char>) -> (r: Vec<char>)
    ensures
        r@ == end_pat(token@),
{
    let mut pat: Vec<char> = Vec::new();
    pat.push('.');
    push_all(&mut pat, token);
    assert(pat@ =~= end_pat(token@));
    pat
}

/// The output name for a template filename, the matcher token removed;
/// `None` when the token does not occur.
pub fn match_and_rewrite(filename: &str, matcher: &str) -> (r: Option<String>)
    ensures
        match out_name_spec(filename@, matcher@) {
            Some(o) => r matches Some(x) && x@ == o,
            None => r is None,
        },
{
    let fv = chars_vec(filename);
    let tv = chars_vec(matcher);
    let pat = mid_pat_exec(&tv);
    match rfind_pat(&fv, &pat) {
        Some(p) => {
            let mut out: Vec<char> = Vec::new();
            push_range(&mut out, &fv, 0, p);
            out.push('.');
            let e = fv.len();
            push_range(&mut out, &fv, p + pat.len(), e);
            proof {
                assert(out@ =~= fv@.subrange(0, p as int) + seq!['.'] + fv@.subrange(
                    p + pat@.len(),
                    fv@.len() as int,
                ));
            }
            Some(string_from_chars(&out))
        },
        None => {
            let ep = end_pat_exec(&tv);
            if fv.len() >= ep.len() {
                let at = fv.len() - ep.len();
                if match_at_exec(&fv, &ep, at) {
                    let mut out: Vec<char> = Vec::new();
                    push_range(&mut out, &fv, 0, at);
                    Some(string_from_chars(&out))
                } else {
                    None
                }
            } else {
                None
            }
        },
    }
}

/// The filename with the old matcher token replaced by the new one;
/// unchanged when the old token does not occur.
pub fn rewrite_template_matcher(filename: &str, old_matcher: &str, new_matcher: &str) -> (r: String)
    ensures
        r@ == rewrite_name_spec(filename@, old_matcher@, new_matcher@),
{
    let fv = chars_vec(filename);
    let ov = chars_vec(old_matcher);
    let nv = chars_vec(new_matcher);
    let pat = mid_pat_exec(&ov);
    let mid_new = mid_pat_exec(&nv);
    let mut s1: Vec<char> = Vec::new();
    match rfind_pat(&fv, &pat) {
        Some(p) => {
            push_range(&mut s1, &fv, 0, p);
            push_all(&mut s1, &mid_new);
            let e = fv.len();
            push_range(&mut s1, &fv, p + pat.len(), e);
            proof {
                assert(s1@ =~= fv@.subrange(0, p as int) + mid_pat(new_matcher@) + fv@.subrange(
                    p + pat@.len(),
                    fv@.len() as int,
                ));
            }
        },
        None => {
            push_all(&mut s1, &fv);
            assert(s1@ =~= fv@);
        },
    }
    let ep = end_pat_exec(&ov);
    if s1.len() >= ep.len() {
        let at = s1.len() - ep.len();
        if match_at_exec(&s1, &ep, at) {
            let mut out: Vec<char> = Vec::new();
            push_range(&mut out, &s1, 0, at);
            let end_new = end_pat_exec(&nv);
            push_all(&mut out, &end_new);
            return string_from_chars(&out);
        }
    }
    string_from_chars(&s1)
}

} // verus!
