//! Generating the shared secret.

use vstd::prelude::*;
use vstd::string::*;
use rand::Rng;
use crate::protocol::hex_digit;

verus! {

/// The number of random bytes in a generated token.
pub const TOKEN_BYTES: usize = 16;

/// Two lower-case hexadecimal digits for each byte, in order.
pub open spec fn hex_of(bytes: Seq<u8>) -> Seq<char>
    decreases bytes.len(),
{
    if bytes.len() == 0 {
        Seq::empty()
    } else {
        hex_of(bytes.drop_last()) + seq![
            hex_digit((bytes.last() / 16) as u32),
            hex_digit((bytes.last() % 16) as u32),
        ]
    }
}

fn digit(n: u8) -> (r: &'static str)
    requires
        n < 16,
    ensures
        r@ == seq![hex_digit(n as u32)],
{
    proof {
        reveal_strlit("0");
        reveal_strlit("1");
        reveal_strlit("2");
        reveal_strlit("3");
        reveal_strlit("4");
        reveal_strlit("5");
        reveal_strlit("6");
        reveal_strlit("7");
        reveal_strlit("8");
        reveal_strlit("9");
        reveal_strlit("a");
        reveal_strlit("b");
        reveal_strlit("c");
        reveal_strlit("d");
        reveal_strlit("e");
        reveal_strlit("f");
    }
    let r = match n {
        0 => "0",
        1 => "1",
        2 => "2",
        3 => "3",
        4 => "4",
        5 => "5",
        6 => "6",
        7 => "7",
        8 => "8",
        9 => "9",
        10 => "a",
        11 => "b",
        12 => "c",
        13 => "d",
        14 => "e",
        _ => "f",
    };
    assert(r@ =~= seq![hex_digit(n as u32)]);
    r
}

/// The bytes as lower-case hexadecimal text.
pub fn token_hex(bytes: &Vec<u8>) -> (r: String)
    ensures
        r@ == hex_of(bytes@),
{
    let mut r = String::new();
    let mut i: usize = 0;
    while i < bytes.len()
        invariant
            i <= bytes@.len(),
            r@ == hex_of(bytes@.take(i as int)),
        decreases bytes@.len() - i,
    {
        let b = bytes[i];
        r.append(digit(b / 16));
        r.append(digit(b % 16));
        proof {
            assert(bytes@.take(i + 1).drop_last() =~= bytes@.take(i as int));
            assert(r@ =~= hex_of(bytes@.take(i + 1)));
        }
        i = i + 1;
    }
    proof {
        assert(bytes@.take(bytes@.len() as int) =~= bytes@);
    }
    r
}

/// Relies on rand::thread_rng with Rng::gen for a byte array: bytes from
/// the thread's generator, of which nothing is promised but their number.
#[verifier::external_body]
fn random_bytes() -> (r: Vec<u8>)
    ensures
        r@.len() == TOKEN_BYTES,
{
    let bytes: [u8; 16] = rand::thread_rng().gen();
    bytes.to_vec()
}

/// A fresh shared secret: sixteen random bytes as thirty-two hexadecimal
/// digits.
pub fn generate_token() -> (r: String)
    ensures
        exists|bytes: Seq<u8>| bytes.len() == TOKEN_BYTES && r@ == hex_of(bytes),
{
    let bytes = random_bytes();
    token_hex(&bytes)
}

} // verus!
