//! Share-code generation: 6 alphanumeric characters, upper-cased.

use vstd::prelude::*;
use crate::strings::ascii_string;

verus! {

/// A share-code character: a decimal digit or an uppercase ASCII letter.
pub open spec fn is_code_char(c: char) -> bool {
    (48 <= c as u32 && c as u32 <= 57) || (65 <= c as u32 && c as u32 <= 90)
}

/// The shape of a share code: exactly 6 code characters.
pub open spec fn spec_valid_code(s: Seq<char>) -> bool {
    s.len() == 6 && (forall|i: int| 0 <= i < s.len() ==> is_code_char(#[trigger] s[i]))
}

/// Relies on rand's `Alphanumeric` distribution: every sample is an ASCII
/// digit or letter (`0-9`, `A-Z`, `a-z`). Nothing more is promised of a
/// random value.
#[verifier::external_body]
fn sample_alnum_byte() -> (r: u8)
    ensures
        (48 <= r && r <= 57) || (65 <= r && r <= 90) || (97 <= r && r <= 122),
{
    rand::distr::Distribution::sample(&rand::distr::Alphanumeric, &mut rand::rng())
}

/// Generates a 6-character share code: independent alphanumeric samples,
/// upper-cased. The code is random; only its shape is promised, and one
/// call says nothing about the next.
pub fn generate_share_code() -> (r: String)
    ensures
        spec_valid_code(r@),
{
    let mut bytes: Vec<u8> = Vec::new();
    let mut i: usize = 0;
    while i < 6
        invariant
            i <= 6,
            bytes@.len() == i,
            forall|k: int| 0 <= k < i ==> (48 <= #[trigger] bytes@[k] && bytes@[k] <= 57) || (65
                <= bytes@[k] && bytes@[k] <= 90),
        decreases 6 - i,
    {
        let b = sample_alnum_byte();
        let up = if b >= 97 {
            b - 32
        } else {
            b
        };
        bytes.push(up);
        i = i + 1;
    }
    let r = ascii_string(bytes);
    assert(spec_valid_code(r@));
    r
}

/// Generates the ten candidate codes of one allocation attempt.
pub fn generate_code_candidates() -> (r: Vec<String>)
    ensures
        r@.len() == 10,
        forall|k: int| 0 <= k < 10 ==> spec_valid_code(#[trigger] r@[k]@),
{
    let mut r: Vec<String> = Vec::new();
    let mut i: usize = 0;
    while i < 10
        invariant
            i <= 10,
            r@.len() == i,
            forall|k: int| 0 <= k < i ==> spec_valid_code(#[trigger] r@[k]@),
        decreases 10 - i,
    {
        r.push(generate_share_code());
        i = i + 1;
    }
    r
}

} // verus!
