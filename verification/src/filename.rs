//! Deterministic script file names derived from artifact names.
//!
//! A name is folded character by character: letters and numbers are kept
//! (ASCII letters lower-cased), everything else becomes an underscore;
//! runs of underscores collapse to one, leading and trailing underscores
//! are dropped; the result is framed as `test_<name>.js`.

use vstd::prelude::*;
use crate::strutil::{is_alnum, lower_char, char_is_alphanumeric, to_lower_char, str_to_chars,
    chars_to_string};

verus! {

/// One sanitized character: alphanumerics are lower-cased, everything
/// else is folded to the separator.
pub open spec fn sanitize_char(c: char) -> char {
    if is_alnum(c) {
        lower_char(c)
    } else {
        '_'
    }
}

/// The name with every character sanitized.
pub open spec fn sanitized(s: Seq<char>) -> Seq<char> {
    s.map_values(|c: char| sanitize_char(c))
}

/// Separator runs collapsed to a single separator, and leading
/// separators dropped.
pub open spec fn collapsed(s: Seq<char>) -> Seq<char>
    decreases s.len(),
{
    if s.len() == 0 {
        Seq::<char>::empty()
    } else {
        let prefix = collapsed(s.drop_last());
        if s.last() == '_' {
            if prefix.len() == 0 || prefix.last() == '_' {
                prefix
            } else {
                prefix.push('_')
            }
        } else {
            prefix.push(s.last())
        }
    }
}

/// Trailing separators dropped.
pub open spec fn trim_end(s: Seq<char>) -> Seq<char>
    decreases s.len(),
{
    if s.len() > 0 && s.last() == '_' {
        trim_end(s.drop_last())
    } else {
        s
    }
}

/// The full derived file name for an artifact name.
pub open spec fn spec_test_filename(name: Seq<char>) -> Seq<char> {
    "test_"@ + trim_end(collapsed(sanitized(name))) + ".js"@
}

/// Derive the script file name for a test name, exactly as
/// `spec_test_filename` states it.
pub fn test_name_to_filename(name: &str) -> (r: String)
    ensures
        r@ == spec_test_filename(name@),
{
    let cs = str_to_chars(name);
    let n: usize = cs.len();
    let ghost svals: Seq<char> = sanitized(name@);
    let mut body: Vec<char> = Vec::new();
    let mut prev_underscore = false;
    let mut i: usize = 0;
    while i < n
        invariant
            i <= n,
            n == cs.len(),
            cs@ == name@,
            svals == sanitized(name@),
            svals.len() == n,
            body@ == collapsed(svals.take(i as int)),
            prev_underscore == (i > 0 && svals[i as int - 1] == '_'),
            body@.len() > 0 ==> (body@.last() == '_' <==> prev_underscore),
        decreases n - i,
    {
        let c = cs[i];
        let sc: char = if char_is_alphanumeric(c) {
            to_lower_char(c)
        } else {
            '_'
        };
        proof {
            assert(svals[i as int] == sanitize_char(name@[i as int]));
            assert(sc == svals[i as int]);
            assert(svals.take(i as int + 1).drop_last() =~= svals.take(i as int));
            assert(svals.take(i as int + 1).last() == svals[i as int]);
        }
        if sc == '_' {
            if !prev_underscore && body.len() > 0 {
                body.push('_');
            }
            prev_underscore = true;
        } else {
            body.push(sc);
            prev_underscore = false;
        }
        i = i + 1;
    }
    proof {
        assert(svals.take(n as int) =~= svals);
    }
    while body.len() > 0 && body[body.len() - 1] == '_'
        invariant
            trim_end(body@) == trim_end(collapsed(svals)),
        decreases body@.len(),
    {
        proof {
            assert(body@.drop_last() =~= body@.take(body@.len() - 1));
        }
        let _ = body.pop();
    }
    let mut out: Vec<char> = Vec::new();
    out.push('t');
    out.push('e');
    out.push('s');
    out.push('t');
    out.push('_');
    let ghost prefix_done: Seq<char> = out@;
    let m: usize = body.len();
    let mut k: usize = 0;
    while k < m
        invariant
            k <= m,
            m == body.len(),
            out@ == prefix_done + body@.take(k as int),
        decreases m - k,
    {
        out.push(body[k]);
        k = k + 1;
        proof {
            assert(out@ =~= prefix_done + body@.take(k as int));
        }
    }
    proof {
        assert(body@.take(m as int) =~= body@);
    }
    out.push('.');
    out.push('j');
    out.push('s');
    let r = chars_to_string(&out);
    proof {
        reveal_strlit("test_");
        reveal_strlit(".js");
        assert(body@ == trim_end(collapsed(sanitized(name@))));
        assert(out@ =~= "test_"@ + trim_end(collapsed(sanitized(name@))) + ".js"@);
    }
    r
}

} // verus!
