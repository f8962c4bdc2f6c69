//! Normalisation of OpenAI-compatible server base URLs.

use vstd::prelude::*;
use vstd::string::StrSliceExecFns;
use crate::text::{trim, trimmed};

verus! {

/// `s` without its trailing `'/'` characters.
pub open spec fn strip_trailing_slashes(s: Seq<char>) -> Seq<char>
    decreases s.len(),
{
    if s.len() > 0 && s.last() == '/' {
        strip_trailing_slashes(s.drop_last())
    } else {
        s
    }
}

/// Base URL as used for requests: trimmed, trailing slashes removed, and a
/// final `/v1` segment removed.
pub open spec fn normalized_base_url(raw: Seq<char>) -> Seq<char> {
    let u = strip_trailing_slashes(trimmed(raw));
    if u.len() >= 3 && u.subrange(u.len() - 3, u.len() as int) == "/v1"@ {
        u.subrange(0, u.len() - 3)
    } else {
        u
    }
}

/// Normalise a base URL: trim it, drop trailing slashes, then drop a final
/// `/v1`.
pub fn normalize_base_url(raw: &str) -> (r: String)
    ensures
        r@ == normalized_base_url(raw@),
{
    let t = trim(raw);
    let n = t.unicode_len();
    let mut k: usize = n;
    proof {
        assert(t@.subrange(0, n as int) =~= t@);
    }
    while k > 0 && t.get_char(k - 1) == '/'
        invariant
            k <= n,
            n == t@.len(),
            strip_trailing_slashes(t@.subrange(0, k as int)) == strip_trailing_slashes(t@),
        decreases k,
    {
        proof {
            assert(t@.subrange(0, k as int).drop_last() =~= t@.subrange(0, k - 1));
        }
        k -= 1;
    }
    proof {
        assert(t@.subrange(0, n as int) =~= t@);
        assert(strip_trailing_slashes(t@.subrange(0, k as int)) == t@.subrange(0, k as int));
    }
    let u = t.substring_char(0, k);
    proof {
        reveal_strlit("/v1");
    }
    if k >= 3 && u.get_char(k - 3) == '/' && u.get_char(k - 2) == 'v' && u.get_char(k - 1) == '1' {
        proof {
            assert(u@.subrange(k - 3, k as int) =~= "/v1"@);
        }
        u.substring_char(0, k - 3).to_owned()
    } else {
        proof {
            if u@.len() >= 3 && u@.subrange(u@.len() - 3, u@.len() as int) == "/v1"@ {
                assert(u@.subrange(k - 3, k as int)[0] == '/');
                assert(u@.subrange(k - 3, k as int)[1] == 'v');
                assert(u@.subrange(k - 3, k as int)[2] == '1');
            }
        }
        u.to_owned()
    }
}

} // verus!
