//! Partition name validation.
//!
//! Partition names can be up to 255 bytes long, can not be empty and can only
//! contain alphanumerics, underscore (`_`), dash (`-`), dot (`.`) and
//! hash tag (`#`).

use vstd::prelude::*;
use vstd::string::StringSliceAdditionalSpecFns;

verus! {

/// A byte that may appear in a partition name: `[a-zA-Z0-9_\-.#]`.
pub open spec fn is_valid_name_byte(b: u8) -> bool {
    (97 <= b <= 122)  // a-z
    || (65 <= b <= 90)  // A-Z
    || (48 <= b <= 57)  // 0-9
    || b == 95  // _
    || b == 45  // -
    || b == 46  // .
    || b == 35  // #
}

/// A legal partition name: between 1 and 255 bytes, every byte drawn from
/// `[a-zA-Z0-9_\-.#]`.
pub open spec fn is_valid_name(bytes: Seq<u8>) -> bool {
    &&& 1 <= bytes.len() <= 255
    &&& forall|i: int| 0 <= i < bytes.len() ==> is_valid_name_byte(#[trigger] bytes[i])
}

/// Returns whether `s` is a legal partition name: non-empty, at most 255
/// bytes, and made only of alphanumerics, `_`, `-`, `.` and `#`.
pub fn is_valid_partition_name(s: &str) -> (r: bool)
    ensures
        r == is_valid_name(s.spec_bytes()),
{
    let bytes = s.as_bytes();

    if bytes.len() == 0 {
        return false;
    }

    if bytes.len() > 255 {
        return false;
    }

    let mut i: usize = 0;
    while i < bytes.len()
        invariant
            0 <= i <= bytes@.len(),
            bytes@ == s.spec_bytes(),
            forall|j: int| 0 <= j < i ==> is_valid_name_byte(#[trigger] bytes@[j]),
        decreases bytes@.len() - i,
    {
        let b = bytes[i];
        let ok = (97 <= b && b <= 122) || (65 <= b && b <= 90) || (48 <= b && b <= 57)
            || b == 95 || b == 45 || b == 46 || b == 35;
        if !ok {
            return false;
        }
        i += 1;
    }

    true
}

} // verus!
