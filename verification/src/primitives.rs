//! Digests, fresh entropy and the clock, each from the crate that provides
//! it: the bodies of those functions are not verified, and what each
//! contract claims is said above it. Hexadecimal text is written and read
//! here, in verified code.

use vstd::prelude::*;
use blake2::{Blake2b512, Digest};

verus! {

/// Length in bytes of a BLAKE2b-512 digest.
pub const DIGEST_LEN: usize = 64;

/// The BLAKE2b-512 digest of a byte string.
pub uninterp spec fn blake2b_512(data: Seq<u8>) -> Seq<u8>;

/// The hexadecimal digit of a number below sixteen, in lower case.
pub open spec fn hex_digit(n: u8) -> char {
    if n < 10 {
        (0x30 + n) as char
    } else {
        (0x61 + n - 10) as char
    }
}

/// The number that a hexadecimal digit stands for, in either case.
pub open spec fn hex_value(c: char) -> Option<u8> {
    if '0' <= c <= '9' {
        Some((c as u32 - 0x30) as u8)
    } else if 'a' <= c <= 'f' {
        Some((c as u32 - 0x61 + 10) as u8)
    } else if 'A' <= c <= 'F' {
        Some((c as u32 - 0x41 + 10) as u8)
    } else {
        None
    }
}

/// The lowercase hexadecimal text of a byte string: two digits for each
/// byte, the high one first.
pub open spec fn hex_encoded(data: Seq<u8>) -> Seq<char>
    decreases data.len(),
{
    if data.len() == 0 {
        Seq::empty()
    } else {
        hex_encoded(data.drop_last()).push(hex_digit(data.last() / 16)).push(
            hex_digit(data.last() % 16),
        )
    }
}

/// The byte string that hexadecimal text stands for; `None` where the text
/// has an odd number of characters or a character that is no digit.
pub open spec fn hex_decoded(text: Seq<char>) -> Option<Seq<u8>>
    decreases text.len(),
{
    if text.len() == 0 {
        Some(Seq::empty())
    } else if text.len() == 1 {
        None
    } else {
        match (
            hex_decoded(text.subrange(0, text.len() - 2)),
            hex_value(text[text.len() - 2]),
            hex_value(text[text.len() - 1]),
        ) {
            (Some(bytes), Some(high), Some(low)) => Some(bytes.push((high * 16 + low) as u8)),
            _ => None,
        }
    }
}

/// `Blake2b512::digest`: the digest is a function of the data, and it is 64
/// bytes long.
#[verifier::external_body]
pub(crate) fn blake2b(data: &[u8]) -> (digest: Vec<u8>)
    ensures
        digest@ == blake2b_512(data@),
        digest@.len() == DIGEST_LEN,
{
    Blake2b512::digest(data).to_vec()
}

/// The text of one hexadecimal digit, in lower case.
fn digit_text(n: u8) -> (text: &'static str)
    requires
        n < 16,
    ensures
        text@ == seq![hex_digit(n)],
{
    proof {
        reveal_strlit("0");
        reveal_strlit("1");
        reveal_strlit("2");
        reveal_strlit("3");
        reveal_strlit("4");
        reveal_strlit("5");
        reveal_strlit("6");
        reveal_strlit("7");
        reveal_strlit("8");
        reveal_strlit("9");
        reveal_strlit("a");
        reveal_strlit("b");
        reveal_strlit("c");
        reveal_strlit("d");
        reveal_strlit("e");
        reveal_strlit("f");
    }
    let text = match n {
        0 => "0",
        1 => "1",
        2 => "2",
        3 => "3",
        4 => "4",
        5 => "5",
        6 => "6",
        7 => "7",
        8 => "8",
        9 => "9",
        10 => "a",
        11 => "b",
        12 => "c",
        13 => "d",
        14 => "e",
        _ => "f",
    };
    assert(text@ =~= seq![hex_digit(n)]);
    text
}

/// The number that a hexadecimal digit stands for, in either case.
fn digit_value(c: char) -> (v: Option<u8>)
    ensures
        v == hex_value(c),
{
    if '0' <= c && c <= '9' {
        Some((c as u32 - 0x30) as u8)
    } else if 'a' <= c && c <= 'f' {
        Some((c as u32 - 0x61 + 10) as u8)
    } else if 'A' <= c && c <= 'F' {
        Some((c as u32 - 0x41 + 10) as u8)
    } else {
        None
    }
}

/// Text of odd length stands for no byte string.
proof fn lemma_odd_text(text: Seq<char>)
    requires
        text.len() % 2 == 1,
    ensures
        hex_decoded(text) is None,
    decreases text.len(),
{
    if text.len() > 1 {
        lemma_odd_text(text.subrange(0, text.len() - 2));
    }
}

/// Where a front part of even length stands for no byte string, the text
/// does not.
proof fn lemma_bad_front(text: Seq<char>, n: int)
    requires
        0 <= n <= text.len(),
        n % 2 == 0,
        text.len() % 2 == 0,
        hex_decoded(text.take(n)) is None,
    ensures
        hex_decoded(text) is None,
    decreases text.len() - n,
{
    if n == text.len() {
        assert(text.take(n) =~= text);
    } else {
        let front = text.subrange(0, text.len() - 2);
        assert(front.take(n) =~= text.take(n));
        lemma_bad_front(front, n);
    }
}

/// The lowercase hexadecimal text of a byte string.
pub fn hex_encode(data: &[u8]) -> (text: String)
    ensures
        text@ == hex_encoded(data@),
{
    let mut text = String::new();
    let mut i: usize = 0;
    assert(data@.take(0) =~= Seq::<u8>::empty());
    while i < data.len()
        invariant
            0 <= i <= data@.len(),
            text@ == hex_encoded(data@.take(i as int)),
        decreases data@.len() - i,
    {
        let byte = data[i];
        let ghost before = text@;
        text = text.concat(digit_text(byte / 16));
        text = text.concat(digit_text(byte % 16));
        proof {
            assert(data@.take(i + 1).drop_last() =~= data@.take(i as int));
            assert(data@.take(i + 1).last() == byte);
            assert(text@ =~= before.push(hex_digit(byte / 16)).push(hex_digit(byte % 16)));
        }
        i += 1;
    }
    assert(data@.take(i as int) =~= data@);
    text
}

/// The byte string that hexadecimal text stands for, with digits of either
/// case; `None` for an odd length or a character that is no digit.
pub fn hex_decode(text: &str) -> (res: Option<Vec<u8>>)
    ensures
        match res {
            Some(data) => hex_decoded(text@) == Some(data@),
            None => hex_decoded(text@) is None,
        },
{
    let n = text.unicode_len();
    if n % 2 != 0 {
        proof {
            lemma_odd_text(text@);
        }
        return None;
    }
    let mut data: Vec<u8> = Vec::new();
    let mut i: usize = 0;
    assert(text@.take(0) =~= Seq::<char>::empty());
    while i < n
        invariant
            0 <= i <= n,
            n == text@.len(),
            n % 2 == 0,
            i % 2 == 0,
            hex_decoded(text@.take(i as int)) == Some(data@),
        decreases n - i,
    {
        let high = digit_value(text.get_char(i));
        let low = digit_value(text.get_char(i + 1));
        proof {
            let front = text@.take(i + 2);
            assert(front.subrange(0, front.len() - 2) =~= text@.take(i as int));
            assert(front[front.len() - 2] == text@[i as int]);
            assert(front[front.len() - 1] == text@[i + 1]);
        }
        match (high, low) {
            (Some(h), Some(l)) => {
                data.push(h * 16 + l);
            },
            _ => {
                proof {
                    lemma_bad_front(text@, i + 2);
                }
                return None;
            },
        }
        i += 2;
    }
    assert(text@.take(i as int) =~= text@);
    Some(data)
}

/// `rand::fill` on a buffer of `n` bytes: `n` bytes from the thread's
/// generator. Only their number is claimed.
#[verifier::external_body]
pub(crate) fn random_bytes(n: usize) -> (bytes: Vec<u8>)
    ensures
        bytes@.len() == n,
{
    let mut bytes = vec![0u8; n];
    rand::fill(&mut bytes[..]);
    bytes
}

/// `OffsetDateTime::now_utc` as seconds since the Unix epoch. Nothing is
/// claimed of it.
#[verifier::external_body]
pub(crate) fn unix_time() -> (seconds: i64) {
    time::OffsetDateTime::now_utc().unix_timestamp()
}

} // verus!
