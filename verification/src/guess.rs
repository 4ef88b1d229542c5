//! The number-guessing endpoint: decoding the client's JSON guess,
//! drawing the secret, and encoding the JSON reply.

use rand::Rng;
use vstd::prelude::*;
use vstd::utf8::encode_utf8;

use crate::utils::{append_bytes, append_str_bytes, dec_digits, u16_dec_digits};

verus! {

/// The client's payload: a single unsigned-byte guess.
pub struct ClientGuess {
    pub data: u8,
}

/// What decoding `{"data": g}` from the given text yields: the guess when
/// the text is such a well-formed object with g in 0..=255, nothing
/// otherwise.
pub uninterp spec fn guess_of_json(s: Seq<char>) -> Option<u8>;

/// Relies on serde_json::from_str (reading the text as a JSON value) and
/// on serde_json::Value::get and Value::as_u64 (picking the `data` field as
/// an unsigned integer): the outcome depends on the characters alone.
#[verifier::external_body]
pub(crate) fn parse_guess(s: &str) -> (r: Option<ClientGuess>)
    ensures
        match r {
            Some(g) => guess_of_json(s@) == Some(g.data),
            None => guess_of_json(s@) is None,
        },
{
    match serde_json::from_str::<serde_json::Value>(s) {
        Ok(v) => match v.get("data") {
            Some(d) => match d.as_u64() {
                Some(n) => match u8::try_from(n) {
                    Ok(b) => Some(ClientGuess { data: b }),
                    Err(_) => None,
                },
                None => None,
            },
            None => None,
        },
        Err(_) => None,
    }
}

/// Relies on rand::Rng::gen_range over the inclusive range 1..=100 of the
/// thread-local generator: the sample lies in that range.
#[verifier::external_body]
fn draw_secret() -> (r: u8)
    ensures
        1 <= r <= 100,
{
    rand::thread_rng().gen_range(1..=100)
}

/// The message of the reply: "equal" exactly when the guess hit the secret.
pub open spec fn guess_message(guess: u8, secret: u8) -> Seq<char> {
    if guess == secret {
        "equal"@
    } else {
        "not equal"@
    }
}

/// The exact reply bytes: `{"message": m, "rand": secret}` in compact JSON,
/// fields in that order.
pub open spec fn guess_body_spec(guess: u8, secret: u8) -> Seq<u8> {
    encode_utf8("{\"message\":\""@) + encode_utf8(guess_message(guess, secret)) + encode_utf8(
        "\",\"rand\":"@,
    ) + dec_digits(secret as nat) + encode_utf8("}"@)
}

/// The message says "equal" exactly when the guess equals the secret.
pub proof fn lemma_guess_message_equal_iff(guess: u8, secret: u8)
    ensures
        (guess_message(guess, secret) == "equal"@) <==> guess == secret,
{
    reveal_strlit("equal");
    reveal_strlit("not equal");
    assert("equal"@.len() == 5);
    assert("not equal"@.len() == 9);
}

/// Build the reply for a known secret: compare and encode.
pub fn check_guess_with(guess: u8, secret: u8) -> (r: Vec<u8>)
    ensures
        r@ == guess_body_spec(guess, secret),
{
    let mut out: Vec<u8> = Vec::new();
    append_str_bytes(&mut out, "{\"message\":\"");
    if guess == secret {
        append_str_bytes(&mut out, "equal");
    } else {
        append_str_bytes(&mut out, "not equal");
    }
    append_str_bytes(&mut out, "\",\"rand\":");
    let digits = u16_dec_digits(secret as u16);
    append_bytes(&mut out, digits.as_slice());
    append_str_bytes(&mut out, "}");
    proof {
        assert(secret as u16 as nat == secret as nat);
        assert(out@ =~= guess_body_spec(guess, secret));
    }
    out
}

/// Draw a secret in 1..=100 and build the reply for it.
pub fn check_guess(guess: u8) -> (r: Vec<u8>)
    ensures
        exists|s: u8| 1 <= s <= 100 && r@ == guess_body_spec(guess, s),
{
    let secret = draw_secret();
    let r = check_guess_with(guess, secret);
    proof {
        assert(1 <= secret <= 100 && r@ == guess_body_spec(guess, secret));
    }
    r
}

} // verus!
