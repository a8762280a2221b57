//! MD5 digests, by which a transferred file is checked.

use vstd::prelude::*;
use vstd::string::*;

verus! {

/// The MD5 digest of `data`, as `md5::compute` gives it.
pub uninterp spec fn md5_digest(data: Seq<u8>) -> Seq<u8>;

/// `md5::compute`: the MD5 digest of `data`. What is claimed: the digest
/// depends on the data alone. How it does is left unsaid.
#[verifier::external_body]
fn md5_compute(data: &[u8]) -> (digest: [u8; 16])
    ensures
        digest@ == md5_digest(data@),
{
    md5::compute(data).0
}

/// The bytes in lower-case hexadecimal, two digits for each.
pub open spec fn hex(bytes: Seq<u8>) -> Seq<char> {
    Seq::new(
        2 * bytes.len(),
        |i: int|
            if i % 2 == 0 {
                "0123456789abcdef"@[bytes[i / 2] as int / 16]
            } else {
                "0123456789abcdef"@[bytes[i / 2] as int % 16]
            },
    )
}

/// The value of a lower-case hexadecimal digit; -1 of any other character.
pub open spec fn digit_value(c: char) -> int {
    if '0' <= c <= '9' {
        c as int - '0' as int
    } else if 'a' <= c <= 'f' {
        c as int - 'a' as int + 10
    } else {
        -1
    }
}

/// Hexadecimal loses nothing: every byte is two digits, of which the first
/// counts 16 times as much as the second.
pub proof fn law_hex_digits(bytes: Seq<u8>)
    ensures
        hex(bytes).len() == 2 * bytes.len(),
        forall|i: int|
            0 <= i < bytes.len() ==> {
                let high = digit_value(hex(bytes)[2 * i]);
                let low = digit_value(hex(bytes)[2 * i + 1]);
                0 <= high < 16 && 0 <= low < 16 && 16 * high + low == #[trigger] bytes[i]
            },
{
    reveal_strlit("0123456789abcdef");
    assert forall|i: int| 0 <= i < bytes.len() implies {
        let high = digit_value(hex(bytes)[2 * i]);
        let low = digit_value(hex(bytes)[2 * i + 1]);
        0 <= high < 16 && 0 <= low < 16 && 16 * high + low == #[trigger] bytes[i]
    } by {
        let byte = bytes[i] as int;
        assert((2 * i) / 2 == i && (2 * i) % 2 == 0);
        assert((2 * i + 1) / 2 == i && (2 * i + 1) % 2 == 1);
        lemma_digit(byte / 16);
        lemma_digit(byte % 16);
    }
}

proof fn lemma_digit(value: int)
    requires
        0 <= value < 16,
    ensures
        digit_value("0123456789abcdef"@[value]) == value,
{
    reveal_strlit("0123456789abcdef");
}

/// The bytes in lower-case hexadecimal, two digits for each.
pub fn lower_hex(bytes: &[u8]) -> (text: String)
    ensures
        text@ == hex(bytes@),
{
    let digits = "0123456789abcdef";
    proof {
        reveal_strlit("0123456789abcdef");
    }
    let mut text = String::new();
    let mut i: usize = 0;
    while i < bytes.len()
        invariant
            i <= bytes@.len(),
            digits@ == "0123456789abcdef"@,
            digits@.len() == 16,
            text@ == hex(bytes@.take(i as int)),
        decreases bytes.len() - i,
    {
        let high: usize = (bytes[i] / 16) as usize;
        let low: usize = (bytes[i] % 16) as usize;
        text.append(digits.substring_char(high, high + 1));
        text.append(digits.substring_char(low, low + 1));
        i += 1;
        assert(text@ =~= hex(bytes@.take(i as int)));
    }
    assert(bytes@.take(i as int) =~= bytes@);
    text
}

/// The MD5 digest of `data` in lower-case hexadecimal.
pub fn md5_hex(data: &[u8]) -> (text: String)
    ensures
        text@ == hex(md5_digest(data@)),
        text@.len() == 32,
{
    let digest = md5_compute(data);
    lower_hex(digest.as_slice())
}

} // verus!
