//! The fixed set of supported image file extensions.

use vstd::prelude::*;
use vstd::string::StringSliceAdditionalSpecFns;

verus! {

/// ASCII lowercasing of one byte; bytes outside `A..Z` pass through, which
/// on UTF-8 text lowercases exactly the ASCII letters.
pub open spec fn spec_lower_byte(b: u8) -> u8 {
    if 65 <= b <= 90 {
        (b + 32) as u8
    } else {
        b
    }
}

/// ASCII lowercasing of a byte string.
pub open spec fn spec_lower(s: Seq<u8>) -> Seq<u8> {
    s.map_values(|b: u8| spec_lower_byte(b))
}

/// The supported extensions, lower case, as byte strings: jpg, jpeg, png,
/// gif, tiff, tif.
pub open spec fn spec_supported_extension_bytes(b: Seq<u8>) -> bool {
    ||| spec_lower(b) == seq![106u8, 112u8, 103u8]
    ||| spec_lower(b) == seq![106u8, 112u8, 101u8, 103u8]
    ||| spec_lower(b) == seq![112u8, 110u8, 103u8]
    ||| spec_lower(b) == seq![103u8, 105u8, 102u8]
    ||| spec_lower(b) == seq![116u8, 105u8, 102u8, 102u8]
    ||| spec_lower(b) == seq![116u8, 105u8, 102u8]
}

/// ASCII lowercasing of one byte.
fn lower_byte(b: u8) -> (r: u8)
    ensures
        r == spec_lower_byte(b),
{
    if 65 <= b && b <= 90 {
        b + 32
    } else {
        b
    }
}

/// Whether the lowered bytes are exactly the three given ones.
fn matches3(v: &Vec<u8>, a: u8, b: u8, c: u8) -> (r: bool)
    ensures
        r == (v@ == seq![a, b, c]),
{
    let hit: bool = v.len() == 3 && v[0] == a && v[1] == b && v[2] == c;
    proof {
        if hit {
            assert(v@ =~= seq![a, b, c]);
        } else {
            if v@ =~= seq![a, b, c] {
                assert(v@.len() == 3);
                assert(v@[0] == a && v@[1] == b && v@[2] == c);
                assert(false);
            }
        }
    }
    hit
}

/// Whether the lowered bytes are exactly the four given ones.
fn matches4(v: &Vec<u8>, a: u8, b: u8, c: u8, d: u8) -> (r: bool)
    ensures
        r == (v@ == seq![a, b, c, d]),
{
    let hit: bool = v.len() == 4 && v[0] == a && v[1] == b && v[2] == c && v[3] == d;
    proof {
        if hit {
            assert(v@ =~= seq![a, b, c, d]);
        } else {
            if v@ =~= seq![a, b, c, d] {
                assert(v@.len() == 4);
                assert(v@[0] == a && v@[1] == b && v@[2] == c && v@[3] == d);
                assert(false);
            }
        }
    }
    hit
}

/// Whether a file extension names a supported image format. The comparison
/// ignores ASCII case; a missing extension is unsupported.
pub fn is_supported_extension(ext: Option<&str>) -> (r: bool)
    ensures
        r == match ext {
            None => false,
            Some(s) => spec_supported_extension_bytes(s.spec_bytes()),
        },
{
    match ext {
        None => false,
        Some(s) => {
            let b: &[u8] = s.as_bytes();
            let n: usize = b.len();
            let mut low: Vec<u8> = Vec::new();
            let mut i: usize = 0;
            while i < n
                invariant
                    0 <= i <= n,
                    n == b@.len(),
                    low@.len() == i,
                    forall|t: int| 0 <= t < i ==> low@[t] == spec_lower_byte(#[trigger] b@[t]),
                decreases n - i,
            {
                low.push(lower_byte(b[i]));
                i = i + 1;
            }
            proof {
                assert(low@ =~= spec_lower(b@));
            }
            let hit: bool = matches3(&low, 106, 112, 103) || matches4(&low, 106, 112, 101, 103)
                || matches3(&low, 112, 110, 103) || matches3(&low, 103, 105, 102) || matches4(
                &low,
                116,
                105,
                102,
                102,
            ) || matches3(&low, 116, 105, 102);
            hit
        },
    }
}

} // verus!
