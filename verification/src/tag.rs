//! Tag-name syntax. A tag condition names a tag by a raw byte string; before
//! any task is compared against it, the name must be well formed. This
//! library's rule: a tag is a non-empty ASCII word of letters, digits and
//! underscores that does not start with a digit. Only the pass/fail outcome
//! of this rule matters to the resolver.

use vstd::prelude::*;

verus! {

/// Whether `b` may appear in a tag name: an ASCII letter, digit or underscore.
pub open spec fn tag_byte_ok(b: u8) -> bool {
    ||| b == 95
    ||| 48 <= b <= 57
    ||| 65 <= b <= 90
    ||| 97 <= b <= 122
}

/// Whether `b` may start a tag name: a tag byte that is not a digit.
pub open spec fn tag_start_ok(b: u8) -> bool {
    tag_byte_ok(b) && !(48 <= b <= 57)
}

/// Whether `s` is a well-formed tag name.
pub open spec fn valid_tag(s: Seq<u8>) -> bool {
    &&& s.len() > 0
    &&& tag_start_ok(s[0])
    &&& forall|i: int| 0 <= i < s.len() ==> tag_byte_ok(#[trigger] s[i])
}

/// Whether `s` holds a well-formed tag name.
pub fn validate_tag(s: &Vec<u8>) -> (r: bool)
    ensures
        r == valid_tag(s@),
{
    if s.len() == 0 {
        return false;
    }
    let b0 = s[0];
    if b0 >= 48 && b0 <= 57 {
        return false;
    }
    let mut i: usize = 0;
    while i < s.len()
        invariant
            0 < s@.len(),
            i <= s@.len(),
            !(48 <= s@[0] <= 57),
            forall|j: int| 0 <= j < i ==> tag_byte_ok(#[trigger] s@[j]),
        decreases s@.len() - i,
    {
        let b = s[i];
        if !(b == 95 || (b >= 48 && b <= 57) || (b >= 65 && b <= 90) || (b >= 97 && b <= 122)) {
            return false;
        }
        i += 1;
    }
    true
}

} // verus!
