//! Human-readable duration formatting.
use vstd::prelude::*;

use crate::strutil::{chars_vec, dec_chars, push_all, string_from_chars, u128_to_chars};

verus! {

/// A duration in nanoseconds rendered with its largest whole unit:
/// seconds, milliseconds, microseconds or nanoseconds.
pub open spec fn duration_text(nanos: int) -> Seq<char> {
    if nanos >= 1000000000 {
        dec_chars(nanos / 1000000000) + "s"@
    } else if nanos >= 1000000 {
        dec_chars(nanos / 1000000) + "ms"@
    } else if nanos >= 1000 {
        dec_chars(nanos / 1000) + "\u{03BC}s"@
    } else {
        dec_chars(nanos) + "ns"@
    }
}

/// Format a duration, given in nanoseconds, in a human-readable form.
pub fn format_duration(nanos: u128) -> (r: String)
    ensures
        r@ == duration_text(nanos as int),
{
    let mut out: Vec<char>;
    if nanos >= 1000000000 {
        out = u128_to_chars(nanos / 1000000000);
        let u = chars_vec("s");
        push_all(&mut out, &u);
        proof {
            assert(out@ =~= duration_text(nanos as int));
        }
    } else if nanos >= 1000000 {
        out = u128_to_chars(nanos / 1000000);
        let u = chars_vec("ms");
        push_all(&mut out, &u);
        proof {
            assert(out@ =~= duration_text(nanos as int));
        }
    } else if nanos >= 1000 {
        out = u128_to_chars(nanos / 1000);
        let u = chars_vec("\u{03BC}s");
        push_all(&mut out, &u);
        proof {
            assert(out@ =~= duration_text(nanos as int));
        }
    } else {
        out = u128_to_chars(nanos);
        let u = chars_vec("ns");
        push_all(&mut out, &u);
        proof {
            assert(out@ =~= duration_text(nanos as int));
        }
    }
    string_from_chars(&out)
}

} // verus!
