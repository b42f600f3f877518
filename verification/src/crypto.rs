//! Conversions between password-hash strings and the fixed-size,
//! NUL-padded byte buffers that the hashing library works with.

use vstd::prelude::*;
use vstd::string::StringSliceAdditionalSpecFns;
use vstd::utf8::{decode_utf8, valid_utf8};

verus! {

/// Size of the hashing library's password-hash buffer, which holds a
/// NUL-terminated string.
pub const STRBYTES: usize = 128;

/// The bytes before the first NUL.
pub open spec fn nul_prefix(b: Seq<u8>) -> Seq<u8>
    decreases b.len(),
{
    if b.len() == 0 {
        Seq::empty()
    } else if b[0] == 0 {
        Seq::empty()
    } else {
        seq![b[0]] + nul_prefix(b.drop_first())
    }
}

proof fn lemma_nul_prefix_at(b: Seq<u8>, i: int)
    requires
        0 <= i <= b.len(),
        forall|m: int| 0 <= m < i ==> b[m] != 0,
        i < b.len() ==> b[i] == 0,
    ensures
        nul_prefix(b) == b.take(i),
    decreases b.len(),
{
    if b.len() == 0 || i == 0 {
        assert(b.take(0) =~= Seq::<u8>::empty());
    } else {
        assert(forall|m: int| 0 <= m < i - 1 ==> #[trigger] b.drop_first()[m] == b[m + 1]);
        lemma_nul_prefix_at(b.drop_first(), i - 1);
        assert(b.take(i) =~= seq![b[0]] + b.drop_first().take(i - 1));
    }
}

/// Relies on std's String::from_utf8: it succeeds exactly on valid UTF-8
/// and decodes it.
#[verifier::external_body]
fn string_from_utf8(bytes: Vec<u8>) -> (r: Option<String>)
    ensures
        match r {
            Option::Some(s) => valid_utf8(bytes@) && s@ == decode_utf8(bytes@),
            Option::None => !valid_utf8(bytes@),
        },
{
    String::from_utf8(bytes).ok()
}

/// The string held in a NUL-padded hash buffer: the bytes before the
/// first NUL, decoded as UTF-8; bytes that are not UTF-8 are rejected.
pub fn u8_array_to_string(bytes: &[u8; STRBYTES]) -> (r: Result<String, ()>)
    ensures
        valid_utf8(nul_prefix(bytes@)) ==> (r matches Ok(s) && s@ == decode_utf8(
            nul_prefix(bytes@),
        )),
        !valid_utf8(nul_prefix(bytes@)) ==> r is Err,
{
    let mut chars: Vec<u8> = Vec::new();
    let mut i: usize = 0;
    while i < STRBYTES
        invariant
            i <= STRBYTES,
            bytes@.len() == STRBYTES,
            chars@ == bytes@.take(i as int),
            forall|m: int| 0 <= m < i ==> bytes@[m] != 0,
        ensures
            i <= STRBYTES,
            bytes@.len() == STRBYTES,
            chars@ == bytes@.take(i as int),
            forall|m: int| 0 <= m < i ==> bytes@[m] != 0,
            i < STRBYTES ==> bytes@[i as int] == 0,
        decreases STRBYTES - i,
    {
        let byte: u8 = bytes[i];
        if byte == 0 {
            break;
        }
        chars.push(byte);
        proof {
            assert(bytes@.take(i + 1) =~= bytes@.take(i as int).push(byte));
        }
        i = i + 1;
    }
    proof {
        lemma_nul_prefix_at(bytes@, i as int);
    }
    match string_from_utf8(chars) {
        Some(string) => Ok(string),
        None => Err(()),
    }
}

/// A string packed into the hashing library's buffer: its UTF-8 bytes,
/// truncated to the buffer size and padded with NULs.
pub fn string_to_u8_array(string: &str) -> (r: [u8; STRBYTES])
    ensures
        forall|i: int|
            0 <= i < STRBYTES ==> r@[i] == (if i < string.spec_bytes().len() {
                string.spec_bytes()[i]
            } else {
                0u8
            }),
{
    let bytes: Vec<u8> = string.as_bytes_vec();
    let mut padded: [u8; STRBYTES] = [0; STRBYTES];
    let mut i: usize = 0;
    while i < STRBYTES
        invariant
            i <= STRBYTES,
            padded@.len() == STRBYTES,
            bytes@ == string.spec_bytes(),
            forall|m: int|
                0 <= m < i ==> padded@[m] == (if m < bytes@.len() {
                    bytes@[m]
                } else {
                    0u8
                }),
            forall|m: int| i <= m < STRBYTES ==> padded@[m] == 0u8,
        decreases STRBYTES - i,
    {
        if i < bytes.len() {
            padded[i] = bytes[i];
        }
        i = i + 1;
    }
    padded
}

} // verus!
