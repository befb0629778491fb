//! Bytes written as hexadecimal digits.
use vstd::prelude::*;

use crate::error::{failure_of, Error, ErrorKind, Failure};
use crate::model::agrees;

verus! {

/// The digit that stands for a value below sixteen, in lower case.
pub open spec fn hex_digit(value: int) -> char {
    if value < 10 {
        ('0' as int + value) as char
    } else {
        ('a' as int + value - 10) as char
    }
}

/// The value of a hexadecimal digit of either case.
pub open spec fn hex_value(digit: char) -> Option<int> {
    if '0' <= digit <= '9' {
        Some(digit as int - '0' as int)
    } else if 'a' <= digit <= 'f' {
        Some(digit as int - 'a' as int + 10)
    } else if 'A' <= digit <= 'F' {
        Some(digit as int - 'A' as int + 10)
    } else {
        None
    }
}

/// Two digits for each byte, the upper half first.
pub open spec fn hex_text(bytes: Seq<u8>) -> Seq<char> {
    Seq::new(
        2 * bytes.len(),
        |i: int| hex_digit(if i % 2 == 0 { bytes[i / 2] as int / 16 } else { bytes[i / 2] as int % 16 }),
    )
}

/// The text is made of an even number of hexadecimal digits.
pub open spec fn is_hex(text: Seq<char>) -> bool {
    &&& text.len() % 2 == 0
    &&& forall|i: int| 0 <= i < text.len() ==> hex_value(#[trigger] text[i]) is Some
}

/// The bytes that hexadecimal digits stand for.
pub open spec fn hex_bytes(text: Seq<char>) -> Seq<u8> {
    Seq::new(
        text.len() / 2,
        |i: int| (hex_value(text[2 * i])->0 * 16 + hex_value(text[2 * i + 1])->0) as u8,
    )
}

/// Decodes hexadecimal digits, or gives the failure `kind` about `subject`.
pub open spec fn decoded(text: Seq<char>, kind: ErrorKind, subject: Seq<char>) -> Result<Seq<u8>, Failure> {
    if is_hex(text) {
        Ok(hex_bytes(text))
    } else {
        Err(failure_of(kind, subject))
    }
}

/// Calls `hex::encode`, which writes every byte as two lower-case digits.
#[verifier::external_body]
fn call_hex_encode(bytes: &[u8]) -> (text: String)
    ensures
        text@ == hex_text(bytes@),
{
    hex::encode(bytes)
}

/// Calls `hex::decode`, which reads pairs of digits of either case and refuses
/// an odd length and any other character. The error itself is not kept.
#[verifier::external_body]
fn call_hex_decode(text: &str) -> (result: Option<Vec<u8>>)
    ensures
        match result {
            Some(bytes) => is_hex(text@) && bytes@ == hex_bytes(text@),
            None => !is_hex(text@),
        },
{
    hex::decode(text).ok()
}

/// Writes bytes as lower-case hexadecimal digits.
pub fn encode(bytes: &[u8]) -> (text: String)
    ensures
        text@ == hex_text(bytes@),
{
    call_hex_encode(bytes)
}

/// Reads hexadecimal digits; the failure names `kind` and `subject`.
pub fn decode(text: &str, kind: ErrorKind, subject: &str) -> (result: Result<Vec<u8>, Error>)
    ensures
        agrees(result, decoded(text@, kind, subject@)),
{
    match call_hex_decode(text) {
        Some(bytes) => Ok(bytes),
        None => Err(Error::of(kind, subject)),
    }
}

/// Encoded bytes decode to themselves.
pub proof fn hex_round_trip(bytes: Seq<u8>)
    ensures
        is_hex(hex_text(bytes)),
        hex_bytes(hex_text(bytes)) == bytes,
{
    let text = hex_text(bytes);
    assert forall|i: int| 0 <= i < text.len() implies hex_value(#[trigger] text[i]) is Some by {
        assert(0 <= bytes[i / 2] as int / 16 < 16);
    }
    assert forall|i: int| 0 <= i < bytes.len() implies hex_bytes(text)[i] == bytes[i] by {
        assert(text[2 * i] == hex_digit(bytes[i] as int / 16)) by {
            assert((2 * i) / 2 == i);
        }
        assert(text[2 * i + 1] == hex_digit(bytes[i] as int % 16)) by {
            assert((2 * i + 1) / 2 == i);
        }
        let high = bytes[i] as int / 16;
        let low = bytes[i] as int % 16;
        assert(hex_value(hex_digit(high)) == Some(high));
        assert(hex_value(hex_digit(low)) == Some(low));
        assert(high * 16 + low == bytes[i]);
    }
    assert(hex_bytes(text) =~= bytes);
}

/// Each byte is written as two digits: the first stands for its sixteens, the second for
/// what is left, and digits from ten on are the letters from `a` on.
pub proof fn bytes_are_spelled_in_sixteens(bytes: Seq<u8>, index: int)
    requires
        0 <= index < bytes.len(),
    ensures
        hex_text(bytes).len() == 2 * bytes.len(),
        ({
            let high = hex_text(bytes)[2 * index] as int;
            let low = hex_text(bytes)[2 * index + 1] as int;
            &&& 48 <= high <= 57 || 97 <= high <= 102
            &&& 48 <= low <= 57 || 97 <= low <= 102
            &&& bytes[index] == 16 * (if high <= 57 {
                high - 48
            } else {
                high - 87
            }) + (if low <= 57 {
                low - 48
            } else {
                low - 87
            })
        }),
{
    assert((2 * index) / 2 == index && (2 * index) % 2 == 0);
    assert((2 * index + 1) / 2 == index && (2 * index + 1) % 2 == 1);
    let byte = bytes[index] as int;
    assert(0 <= byte / 16 < 16 && 0 <= byte % 16 < 16);
}

/// A text is read as bytes exactly when it has an even number of characters, each a decimal
/// digit or a letter of `a` to `f` of either case; each pair of them is one byte.
pub proof fn digits_are_read_in_pairs(text: Seq<char>, kind: ErrorKind, subject: Seq<char>)
    ensures
        decoded(text, kind, subject) is Ok <==> text.len() % 2 == 0 && forall|i: int|
            0 <= i < text.len() ==> '0' <= (#[trigger] text[i]) <= '9' || 'a' <= text[i] <= 'f'
                || 'A' <= text[i] <= 'F',
        decoded(text, kind, subject) is Ok ==> decoded(text, kind, subject)->Ok_0.len() * 2
            == text.len(),
        decoded(text, kind, subject) is Err ==> decoded(text, kind, subject)->Err_0.kind == kind
            && decoded(text, kind, subject)->Err_0.subject == subject,
{
    if is_hex(text) {
        assert forall|i: int| 0 <= i < text.len() implies '0' <= (#[trigger] text[i]) <= '9' || 'a'
            <= text[i] <= 'f' || 'A' <= text[i] <= 'F' by {
            assert(hex_value(text[i]) is Some);
        }
    }
    if text.len() % 2 == 0 && forall|i: int|
        0 <= i < text.len() ==> '0' <= (#[trigger] text[i]) <= '9' || 'a' <= text[i] <= 'f' || 'A'
            <= text[i] <= 'F' {
        assert forall|i: int| 0 <= i < text.len() implies hex_value(#[trigger] text[i]) is Some by {
        }
    }
}

/// Digits of either case are read alike: as the byte that is written with them.
pub proof fn cases_are_read_alike(text: Seq<char>, bytes: Seq<u8>)
    requires
        text.len() == 2 * bytes.len(),
        forall|i: int|
            0 <= i < text.len() ==> {
                let written = hex_text(bytes)[i];
                (#[trigger] text[i]) == written || ('a' <= written <= 'f' && text[i] as int
                    == written as int - 32)
            },
    ensures
        is_hex(text),
        hex_bytes(text) == bytes,
{
    hex_round_trip(bytes);
    let written = hex_text(bytes);
    assert forall|i: int| 0 <= i < text.len() implies hex_value(#[trigger] text[i]) == hex_value(
        written[i],
    ) && hex_value(text[i]) is Some by {
        assert(hex_value(written[i]) is Some);
    }
    assert(hex_bytes(text) =~= hex_bytes(written)) by {
        assert forall|i: int| 0 <= i < bytes.len() implies hex_bytes(text)[i] == hex_bytes(
            written,
        )[i] by {
            assert(hex_value(text[2 * i]) == hex_value(written[2 * i]));
            assert(hex_value(text[2 * i + 1]) == hex_value(written[2 * i + 1]));
        }
    }
}

} // verus!
