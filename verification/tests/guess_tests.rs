use tinyhttp::guess::{check_guess, check_guess_with, ClientGuess};
use tinyhttp::utils::trim_null_bytes;

#[test]
fn client_guess_holds_a_byte() {
    let g = ClientGuess { data: 255 };
    assert_eq!(g.data, 255);
}

#[test]
fn reply_bytes_for_equal_guess() {
    let bytes = check_guess_with(100, 100);
    assert_eq!(bytes, b"{\"message\":\"equal\",\"rand\":100}".to_vec());
}

#[test]
fn reply_bytes_for_unequal_guess() {
    let bytes = check_guess_with(1, 100);
    assert_eq!(bytes, b"{\"message\":\"not equal\",\"rand\":100}".to_vec());
}

#[test]
fn reply_is_valid_json_with_expected_fields() {
    let bytes = check_guess_with(7, 31);
    let v: serde_json::Value = serde_json::from_slice(&bytes).unwrap();
    assert_eq!(v["message"].as_str(), Some("not equal"));
    assert_eq!(v["rand"].as_u64(), Some(31));
}

#[test]
fn drawn_secret_stays_in_range() {
    for _ in 0..200 {
        let bytes = check_guess(0);
        let v: serde_json::Value = serde_json::from_slice(&bytes).unwrap();
        let rand = v["rand"].as_u64().unwrap();
        assert!((1..=100).contains(&rand));
        // a guess of 0 can never match a secret drawn from 1..=100
        assert_eq!(v["message"].as_str(), Some("not equal"));
    }
}

#[test]
fn equal_exactly_when_guess_hits_secret() {
    for secret in [1u8, 50, 100] {
        for guess in [0u8, 1, 50, 99, 100] {
            let bytes = check_guess_with(guess, secret);
            let v: serde_json::Value = serde_json::from_slice(&bytes).unwrap();
            let expected = if guess == secret { "equal" } else { "not equal" };
            assert_eq!(v["message"].as_str(), Some(expected));
            assert_eq!(v["rand"].as_u64(), Some(secret as u64));
        }
    }
}

#[test]
fn trim_null_bytes_strips_padding_and_whitespace() {
    assert_eq!(trim_null_bytes("\u{0}\u{0}  {\"data\": 5} \t\r\n\u{0}"), "{\"data\": 5}");
    assert_eq!(trim_null_bytes("plain"), "plain");
    assert_eq!(trim_null_bytes("\u{0}\u{0}"), "");
    assert_eq!(trim_null_bytes(""), "");
    // interior NULs and whitespace are kept
    assert_eq!(trim_null_bytes(" a\u{0}b "), "a\u{0}b");
}
