//! mDNS naming: the service type Ghost-Link nodes advertise under and the
//! instance label derived from a node id.

use vstd::prelude::*;
use vstd::string::StrSliceExecFns;
use crate::text::push_char;

verus! {

/// mDNS service type Ghost-Link nodes advertise themselves under.
pub const MDNS_SERVICE_TYPE: &'static str = "_ghostlink._tcp.local.";

/// `id` with every `'.'` (the DNS label separator) replaced by `'-'`.
pub open spec fn sanitized(id: Seq<char>) -> Seq<char> {
    id.map_values(|c: char| if c == '.' { '-' } else { c })
}

/// Instance label for a node id: dots become dashes.
pub fn sanitize_instance_name(id: &str) -> (r: String)
    ensures
        r@ == sanitized(id@),
{
    let n = id.unicode_len();
    let mut out = String::new();
    let mut i: usize = 0;
    while i < n
        invariant
            i <= n,
            n == id@.len(),
            out@ == sanitized(id@).subrange(0, i as int),
        decreases n - i,
    {
        let c = id.get_char(i);
        push_char(&mut out, if c == '.' { '-' } else { c });
        i += 1;
        proof {
            assert(out@ =~= sanitized(id@).subrange(0, i as int));
        }
    }
    proof {
        assert(sanitized(id@).subrange(0, n as int) =~= sanitized(id@));
    }
    out
}

} // verus!
