//! Random identifiers.
use vstd::prelude::*;
use crate::text::{concat, hex, hex_string_padded, zero_padded};

verus! {

/// The version field (bits 76..80) of a 128-bit UUID.
pub open spec fn uuid_version(u: u128) -> u128 {
    (u >> 76u128) & 0xfu128
}

/// The variant field (bits 62..64) of a 128-bit UUID.
pub open spec fn uuid_variant(u: u128) -> u128 {
    (u >> 62u128) & 0x3u128
}

/// Calls `uuid::Uuid::new_v4` and returns the UUID as a big-endian `u128`.
/// Trusted: the random bits are unconstrained; the uuid crate's source sets the
/// version field to 4 and the variant field to 0b10, which is all that is claimed.
#[verifier::external_body]
pub(crate) fn new_uuid() -> (r: u128)
    ensures
        uuid_version(r) == 4,
        uuid_variant(r) == 2,
{
    uuid::Uuid::new_v4().as_u128()
}

/// The hyphenated lower-case text of a UUID: 8-4-4-4-12 hex digits.
pub open spec fn uuid_text(u: u128) -> Seq<char> {
    zero_padded(hex((u >> 96u128) as nat), 8) + "-"@ + zero_padded(hex(((u >> 80u128) & 0xffffu128) as nat), 4)
        + "-"@ + zero_padded(hex(((u >> 64u128) & 0xffffu128) as nat), 4) + "-"@ + zero_padded(
        hex(((u >> 48u128) & 0xffffu128) as nat),
        4,
    ) + "-"@ + zero_padded(hex((u & 0xffff_ffff_ffffu128) as nat), 12)
}

/// Renders a UUID in its hyphenated form, as the uuid crate displays it.
pub fn uuid_string(u: u128) -> (r: String)
    ensures
        r@ == uuid_text(u),
{
    let a = hex_string_padded(u >> 96u128, 8);
    let b = hex_string_padded((u >> 80u128) & 0xffffu128, 4);
    let c = hex_string_padded((u >> 64u128) & 0xffffu128, 4);
    let d = hex_string_padded((u >> 48u128) & 0xffffu128, 4);
    let e = hex_string_padded(u & 0xffff_ffff_ffffu128, 12);
    let mut s = concat(a.as_str(), "-");
    s.append(b.as_str());
    s.append("-");
    s.append(c.as_str());
    s.append("-");
    s.append(d.as_str());
    s.append("-");
    s.append(e.as_str());
    s
}

} // verus!
