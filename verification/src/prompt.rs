//! Prompt templates: a template is text with a placeholder that the
//! work item's content replaces. A template without the placeholder is
//! malformed, which is fatal for its item only.

use vstd::prelude::*;
use crate::strutil::{str_to_chars, chars_to_string};

verus! {

/// The placeholder occurs in `s` at position `i`.
pub open spec fn is_match_at(s: Seq<char>, pat: Seq<char>, i: int) -> bool {
    0 <= i && i + pat.len() <= s.len() && s.subrange(i, i + pat.len()) == pat
}

/// Whether the placeholder occurs anywhere in the template.
pub open spec fn has_match(s: Seq<char>, pat: Seq<char>) -> bool {
    exists|i: int| is_match_at(s, pat, i)
}

/// Find the first occurrence of `pat` in `s`.
fn find_sub(s: &Vec<char>, pat: &Vec<char>) -> (r: Option<usize>)
    requires
        pat@.len() >= 1,
    ensures
        match r {
            Some(i) => is_match_at(s@, pat@, i as int) && forall|j: int|
                0 <= j < i ==> !is_match_at(s@, pat@, j),
            None => !has_match(s@, pat@),
        },
{
    let n = s.len();
    let m = pat.len();
    if m > n {
        proof {
            assert forall|j: int| !is_match_at(s@, pat@, j) by {}
        }
        return None;
    }
    let mut i: usize = 0;
    while i <= n - m
        invariant
            m >= 1,
            m <= n,
            n == s@.len(),
            m == pat@.len(),
            i <= n - m + 1,
            forall|j: int| 0 <= j < i ==> !is_match_at(s@, pat@, j),
        decreases n - m - i + 1,
    {
        let mut k: usize = 0;
        let mut matched = true;
        while k < m
            invariant
                m >= 1,
                m <= n,
                n == s@.len(),
                m == pat@.len(),
                i + m <= n,
                k <= m,
                matched == (forall|q: int| 0 <= q < k ==> s@[i + q] == pat@[q]),
            decreases m - k,
        {
            if s[i + k] != pat[k] {
                matched = false;
                proof {
                    assert(s@[i + k as int] != pat@[k as int]);
                }
                k = m;
            } else {
                proof {
                    assert(s@[i + k as int] == pat@[k as int]);
                }
                k = k + 1;
            }
        }
        if matched {
            proof {
                assert(s@.subrange(i as int, i + m) =~= pat@);
            }
            return Some(i);
        }
        proof {
            if is_match_at(s@, pat@, i as int) {
                assert(s@.subrange(i as int, i + m) == pat@);
                assert forall|q: int| 0 <= q < m implies s@[i + q] == pat@[q] by {
                    assert(s@.subrange(i as int, i + m)[q] == s@[i + q]);
                }
                assert(false);
            }
        }
        i = i + 1;
    }
    proof {
        assert forall|j: int| !is_match_at(s@, pat@, j) by {
            if 0 <= j <= n - m {
                assert(!is_match_at(s@, pat@, j));
            }
        }
    }
    None
}

/// Render a template: replace the first occurrence of the placeholder
/// with the item content. A template without the placeholder is
/// rejected, and nothing else is changed.
pub fn render_template(template: &str, placeholder: &str, content: &str) -> (r: Option<String>)
    requires
        placeholder@.len() >= 1,
    ensures
        r is Some <==> has_match(template@, placeholder@),
        r is Some ==> exists|i: int|
            {
                &&& #[trigger] is_match_at(template@, placeholder@, i)
                &&& (forall|j: int| 0 <= j < i ==> !is_match_at(template@, placeholder@, j))
                &&& (r->0)@ == template@.subrange(0, i) + content@ + template@.subrange(
                    i + placeholder@.len(),
                    template@.len() as int,
                )
            },
{
    let t = str_to_chars(template);
    let p = str_to_chars(placeholder);
    let c = str_to_chars(content);
    match find_sub(&t, &p) {
        Some(i) => {
            let mut out: Vec<char> = Vec::new();
            let mut k: usize = 0;
            while k < i
                invariant
                    k <= i,
                    i <= t@.len(),
                    t@ == template@,
                    out@ == t@.subrange(0, k as int),
                decreases i - k,
            {
                out.push(t[k]);
                proof {
                    assert(out@ =~= t@.subrange(0, k + 1));
                }
                k = k + 1;
            }
            let mut k2: usize = 0;
            let ghost prefix = out@;
            while k2 < c.len()
                invariant
                    k2 <= c@.len(),
                    c@ == content@,
                    out@ == prefix + c@.subrange(0, k2 as int),
                decreases c@.len() - k2,
            {
                out.push(c[k2]);
                proof {
                    assert(out@ =~= prefix + c@.subrange(0, k2 + 1));
                }
                k2 = k2 + 1;
            }
            let ghost prefix2 = out@;
            let tl = t.len();
            proof {
                assert(is_match_at(t@, p@, i as int));
                assert(i + p@.len() <= tl);
            }
            let mut k3: usize = i + p.len();
            while k3 < t.len()
                invariant
                    i + p@.len() <= k3 <= t@.len(),
                    t@ == template@,
                    p@ == placeholder@,
                    out@ == prefix2 + t@.subrange(i + p@.len(), k3 as int),
                decreases t@.len() - k3,
            {
                out.push(t[k3]);
                proof {
                    assert(out@ =~= prefix2 + t@.subrange(i + p@.len(), k3 + 1));
                }
                k3 = k3 + 1;
            }
            let r = chars_to_string(&out);
            proof {
                assert(c@.subrange(0, c@.len() as int) =~= content@);
                assert(r@ == template@.subrange(0, i as int) + content@ + template@.subrange(
                    i + placeholder@.len(),
                    template@.len() as int,
                ));
                assert(is_match_at(template@, placeholder@, i as int));
            }
            Some(r)
        }
        None => None,
    }
}

} // verus!
