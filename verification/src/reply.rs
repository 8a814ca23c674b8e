//! Reading the completion service's script replies: the generated
//! script is the fenced code block of the reply — from the line after
//! the opening fence up to the closing fence. A reply without a code
//! block is a parse failure for its item.

use vstd::prelude::*;
use crate::strutil::{str_to_chars, chars_to_string};

verus! {

/// The pattern occurs in `s` at position `i`.
pub open spec fn pat_match_at(s: Seq<char>, pat: Seq<char>, i: int) -> bool {
    0 <= i && i + pat.len() <= s.len() && s.subrange(i, i + pat.len()) == pat
}

/// The first occurrence of `pat` in `s` at or after `from`.
pub open spec fn sp_find(s: Seq<char>, pat: Seq<char>, from: int) -> Option<int>
    decreases s.len() - from,
{
    if from < 0 || pat.len() < 1 || from + pat.len() > s.len() {
        None
    } else if pat_match_at(s, pat, from) {
        Some(from)
    } else {
        sp_find(s, pat, from + 1)
    }
}

/// Find the first occurrence of `pat` at or after `from`.
fn find_from(s: &Vec<char>, pat: &Vec<char>, from: usize) -> (r: Option<usize>)
    requires
        pat@.len() >= 1,
    ensures
        match r {
            Some(i) => from <= i && sp_find(s@, pat@, from as int) == Some(i as int),
            None => sp_find(s@, pat@, from as int) is None,
        },
{
    let n = s.len();
    let m = pat.len();
    if m > n || from > n - m {
        proof {
            lemma_sp_find_none_past_end(s@, pat@, from as int);
        }
        return None;
    }
    let mut i: usize = from;
    while i <= n - m
        invariant
            m >= 1,
            m <= n,
            n == s@.len(),
            m == pat@.len(),
            from <= i <= n - m + 1,
            sp_find(s@, pat@, from as int) == sp_find(s@, pat@, i as int),
        decreases n - m - i + 1,
    {
        let mut k: usize = 0;
        let mut matched = true;
        while k < m
            invariant
                m >= 1,
                n == s@.len(),
                m == pat@.len(),
                i + m <= n,
                k <= m,
                matched == (forall|q: int| 0 <= q < k ==> s@[i + q] == pat@[q]),
            decreases m - k,
        {
            if s[i + k] != pat[k] {
                matched = false;
                proof {
                    assert(s@[i + k as int] != pat@[k as int]);
                }
                k = m;
            } else {
                proof {
                    assert(s@[i + k as int] == pat@[k as int]);
                }
                k = k + 1;
            }
        }
        if matched {
            proof {
                assert(s@.subrange(i as int, i + m) =~= pat@);
                assert(pat_match_at(s@, pat@, i as int));
            }
            return Some(i);
        }
        proof {
            if pat_match_at(s@, pat@, i as int) {
                assert forall|q: int| 0 <= q < m implies s@[i + q] == pat@[q] by {
                    assert(s@.subrange(i as int, i + m)[q] == s@[i + q]);
                }
                assert(false);
            }
            assert(sp_find(s@, pat@, i as int) == sp_find(s@, pat@, i as int + 1));
        }
        i = i + 1;
    }
    proof {
        assert(sp_find(s@, pat@, i as int) is None);
    }
    None
}

/// Past the last position where the pattern could fit, nothing is
/// found.
proof fn lemma_sp_find_none_past_end(s: Seq<char>, pat: Seq<char>, from: int)
    requires
        pat.len() >= 1,
        from + pat.len() > s.len() || from > s.len() - pat.len(),
    ensures
        sp_find(s, pat, from) is None,
    decreases s.len() - from,
{
    if !(from < 0 || from + pat.len() > s.len()) {
        assert(false);
    }
}

/// The code block of a reply: the text between the end of the opening
/// fence's line and the closing fence.
pub open spec fn sp_code_block(s: Seq<char>) -> Option<Seq<char>> {
    let fence = seq!['`', '`', '`'];
    match sp_find(s, fence, 0) {
        Some(i1) => match sp_find(s, seq!['\n'], i1 + 3) {
            Some(nl) => match sp_find(s, fence, nl + 1) {
                Some(i2) => Some(s.subrange(nl + 1, i2)),
                None => None,
            },
            None => None,
        },
        None => None,
    }
}

/// Extract the fenced code block of a script reply, exactly as
/// `sp_code_block` states it; a reply without one yields nothing.
pub fn extract_code_block(reply: &str) -> (r: Option<String>)
    ensures
        match r {
            Some(code) => sp_code_block(reply@) == Some(code@),
            None => sp_code_block(reply@) is None,
        },
{
    let cs = str_to_chars(reply);
    let total = cs.len();
    let mut fence: Vec<char> = Vec::new();
    fence.push('`');
    fence.push('`');
    fence.push('`');
    let mut newline: Vec<char> = Vec::new();
    newline.push('\n');
    proof {
        assert(fence@ =~= seq!['`', '`', '`']);
        assert(newline@ =~= seq!['\n']);
    }
    match find_from(&cs, &fence, 0) {
        Some(i1) => {
            proof {
                assert(pat_match_at(cs@, fence@, i1 as int)) by {
                    lemma_sp_find_hits(cs@, fence@, 0, i1 as int);
                }
                assert(i1 + 3 <= total);
            }
            match find_from(&cs, &newline, i1 + 3) {
                Some(nl) => {
                    proof {
                        assert(pat_match_at(cs@, newline@, nl as int)) by {
                            lemma_sp_find_hits(cs@, newline@, i1 as int + 3, nl as int);
                        }
                        assert(nl + 1 <= total);
                    }
                    match find_from(&cs, &fence, nl + 1) {
                        Some(i2) => {
                            let mut out: Vec<char> = Vec::new();
                            let mut k: usize = nl + 1;
                            proof {
                                assert(pat_match_at(cs@, fence@, i2 as int)) by {
                                    lemma_sp_find_hits(cs@, fence@, nl as int + 1, i2 as int);
                                }
                                assert(out@ =~= cs@.subrange(nl as int + 1, k as int));
                            }
                            while k < i2
                                invariant
                                    nl + 1 <= k <= i2,
                                    i2 <= cs@.len(),
                                    out@ == cs@.subrange(nl as int + 1, k as int),
                                decreases i2 - k,
                            {
                                out.push(cs[k]);
                                k = k + 1;
                                proof {
                                    assert(out@ =~= cs@.subrange(nl as int + 1, k as int));
                                }
                            }
                            Some(chars_to_string(&out))
                        }
                        None => None,
                    }
                }
                None => None,
            }
        }
        None => None,
    }
}

/// A found position is a real occurrence.
proof fn lemma_sp_find_hits(s: Seq<char>, pat: Seq<char>, from: int, i: int)
    requires
        sp_find(s, pat, from) == Some(i),
    ensures
        pat_match_at(s, pat, i),
        from <= i,
    decreases s.len() - from,
{
    if !(from < 0 || pat.len() < 1 || from + pat.len() > s.len()) {
        if pat_match_at(s, pat, from) {
        } else {
            lemma_sp_find_hits(s, pat, from + 1, i);
        }
    }
}

} // verus!
