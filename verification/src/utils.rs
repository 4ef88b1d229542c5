//! Text and byte helpers: leading/trailing scans, whitespace and NUL
//! trimming, decimal rendering of integers, and byte-buffer appending.

use vstd::prelude::*;

verus! {

/// Failure modes of the static-file collaborator.
#[derive(Debug)]
pub enum FileReadError {
    FileNotFound(String),
    IOError,
}

/// Whether a character has the Unicode `White_Space` property.
pub uninterp spec fn is_unicode_ws(c: char) -> bool;

/// Relies on char::is_whitespace: true exactly for characters with the
/// Unicode `White_Space` property, which includes space, tab, line feed
/// and carriage return.
#[verifier::external_body]
pub(crate) fn is_ws_char(c: char) -> (r: bool)
    ensures
        r == is_unicode_ws(c),
        (c == ' ' || c == '\t' || c == '\n' || c == '\r') ==> r,
{
    c.is_whitespace()
}

/// Relies on std::str::from_utf8: succeeds exactly on valid UTF-8 and
/// yields the decoded characters of the buffer.
#[verifier::external_body]
pub(crate) fn decode_text(b: &[u8]) -> (r: Option<&str>)
    ensures
        r is Some <==> vstd::utf8::valid_utf8(b@),
        match r {
            Some(s) => s@ == vstd::utf8::decode_utf8(b@),
            None => true,
        },
{
    std::str::from_utf8(b).ok()
}

/// How many leading elements of `s` satisfy `p`.
pub open spec fn count_leading<T>(s: Seq<T>, p: spec_fn(T) -> bool) -> int
    decreases s.len(),
{
    if s.len() == 0 || !p(s[0]) {
        0
    } else {
        1 + count_leading(s.drop_first(), p)
    }
}

/// How many trailing elements of `s` satisfy `p`.
pub open spec fn count_trailing<T>(s: Seq<T>, p: spec_fn(T) -> bool) -> int
    decreases s.len(),
{
    if s.len() == 0 || !p(s.last()) {
        0
    } else {
        1 + count_trailing(s.drop_last(), p)
    }
}

/// `count_leading` is the unique `n` below which `p` holds and at which it fails.
pub proof fn lemma_count_leading_is<T>(s: Seq<T>, p: spec_fn(T) -> bool, n: int)
    requires
        0 <= n <= s.len(),
        forall|j: int| 0 <= j < n ==> p(s[j]),
        n < s.len() ==> !p(s[n]),
    ensures
        count_leading(s, p) == n,
    decreases s.len(),
{
    if s.len() > 0 && p(s[0]) {
        assert(s.drop_first().len() == s.len() - 1);
        assert forall|j: int| 0 <= j < n - 1 implies p(s.drop_first()[j]) by {
            assert(s.drop_first()[j] == s[j + 1]);
        }
        if n - 1 < s.drop_first().len() {
            assert(s.drop_first()[n - 1] == s[n]);
        }
        lemma_count_leading_is(s.drop_first(), p, n - 1);
    }
}

/// `count_trailing` is the unique `n` above which `p` holds and below which it fails.
pub proof fn lemma_count_trailing_is<T>(s: Seq<T>, p: spec_fn(T) -> bool, n: int)
    requires
        0 <= n <= s.len(),
        forall|j: int| s.len() - n <= j < s.len() ==> p(s[j]),
        n < s.len() ==> !p(s[s.len() - n - 1]),
    ensures
        count_trailing(s, p) == n,
    decreases s.len(),
{
    if s.len() > 0 && p(s.last()) {
        assert forall|j: int| s.drop_last().len() - (n - 1) <= j < s.drop_last().len() implies p(
            s.drop_last()[j],
        ) by {
            assert(s.drop_last()[j] == s[j]);
        }
        if n - 1 < s.drop_last().len() {
            assert(s.drop_last()[s.drop_last().len() - (n - 1) - 1] == s[s.len() - n - 1]);
        }
        lemma_count_trailing_is(s.drop_last(), p, n - 1);
    }
}

/// The predicate selecting whitespace characters.
pub open spec fn ws_pred() -> spec_fn(char) -> bool {
    |c: char| is_unicode_ws(c)
}

/// The predicate selecting NUL characters.
pub open spec fn nul_pred() -> spec_fn(char) -> bool {
    |c: char| c == '\0'
}

/// `s` with the elements matching `p` removed from both ends, as
/// `str::trim_matches` does it.
pub open spec fn trim_by<T>(s: Seq<T>, p: spec_fn(T) -> bool) -> Seq<T> {
    let t = s.skip(count_leading(s, p));
    t.take(t.len() - count_trailing(t, p))
}

/// `s` with surrounding Unicode whitespace removed, as `str::trim` does it.
pub open spec fn trim_spec(s: Seq<char>) -> Seq<char> {
    trim_by(s, ws_pred())
}

/// `s` with surrounding NUL characters removed.
pub open spec fn trim_nuls_spec(s: Seq<char>) -> Seq<char> {
    trim_by(s, nul_pred())
}

/// Remove surrounding Unicode whitespace, as `str::trim` does.
pub fn trim_ws_str(s: &str) -> (r: &str)
    ensures
        r@ == trim_spec(s@),
{
    let len = s.unicode_len();
    let mut start: usize = 0;
    loop
        invariant
            0 <= start <= len,
            len == s@.len(),
            forall|j: int| 0 <= j < start ==> is_unicode_ws(s@[j]),
        ensures
            0 <= start <= len,
            forall|j: int| 0 <= j < start ==> is_unicode_ws(s@[j]),
            start < len ==> !is_unicode_ws(s@[start as int]),
        decreases len - start,
    {
        if start < len {
            if is_ws_char(s.get_char(start)) {
                start += 1;
            } else {
                break;
            }
        } else {
            break;
        }
    }
    let mut end: usize = len;
    loop
        invariant
            start <= end <= len,
            len == s@.len(),
            forall|j: int| 0 <= j < start ==> is_unicode_ws(s@[j]),
            start < len ==> !is_unicode_ws(s@[start as int]),
            forall|j: int| end <= j < len ==> is_unicode_ws(s@[j]),
        ensures
            start <= end <= len,
            forall|j: int| end <= j < len ==> is_unicode_ws(s@[j]),
            end > start ==> !is_unicode_ws(s@[end - 1]),
        decreases end,
    {
        if end > start {
            if is_ws_char(s.get_char(end - 1)) {
                end -= 1;
            } else {
                break;
            }
        } else {
            break;
        }
    }
    proof {
        assert forall|j: int| 0 <= j < start implies (ws_pred())(s@[j]) by {}
        lemma_count_leading_is(s@, ws_pred(), start as int);
        let t = s@.skip(start as int);
        assert forall|j: int| t.len() - (len - end) <= j < t.len() implies (ws_pred())(t[j]) by {
            assert(t[j] == s@[start + j]);
        }
        if (len - end) < t.len() {
            assert(t[t.len() - (len - end) - 1] == s@[end - 1]);
        }
        lemma_count_trailing_is(t, ws_pred(), len - end);
        assert(trim_spec(s@) =~= s@.subrange(start as int, end as int));
    }
    s.substring_char(start, end)
}

/// Remove surrounding NUL characters, as `str::trim_matches('\0')` does.
pub fn trim_nuls_str(s: &str) -> (r: &str)
    ensures
        r@ == trim_nuls_spec(s@),
{
    let len = s.unicode_len();
    let mut start: usize = 0;
    loop
        invariant
            0 <= start <= len,
            len == s@.len(),
            forall|j: int| 0 <= j < start ==> s@[j] == '\0',
        ensures
            0 <= start <= len,
            forall|j: int| 0 <= j < start ==> s@[j] == '\0',
            start < len ==> s@[start as int] != '\0',
        decreases len - start,
    {
        if start < len {
            if s.get_char(start) == '\0' {
                start += 1;
            } else {
                break;
            }
        } else {
            break;
        }
    }
    let mut end: usize = len;
    loop
        invariant
            start <= end <= len,
            len == s@.len(),
            start < len ==> s@[start as int] != '\0',
            forall|j: int| end <= j < len ==> s@[j] == '\0',
        ensures
            start <= end <= len,
            forall|j: int| end <= j < len ==> s@[j] == '\0',
            end > start ==> s@[end - 1] != '\0',
        decreases end,
    {
        if end > start {
            if s.get_char(end - 1) == '\0' {
                end -= 1;
            } else {
                break;
            }
        } else {
            break;
        }
    }
    proof {
        assert forall|j: int| 0 <= j < start implies (nul_pred())(s@[j]) by {}
        lemma_count_leading_is(s@, nul_pred(), start as int);
        let t = s@.skip(start as int);
        assert forall|j: int| t.len() - (len - end) <= j < t.len() implies (nul_pred())(t[j]) by {
            assert(t[j] == s@[start + j]);
        }
        if (len - end) < t.len() {
            assert(t[t.len() - (len - end) - 1] == s@[end - 1]);
        }
        lemma_count_trailing_is(t, nul_pred(), len - end);
        assert(trim_nuls_spec(s@) =~= s@.subrange(start as int, end as int));
    }
    s.substring_char(start, end)
}

/// Strip surrounding NUL bytes, then surrounding whitespace: the defensive
/// cleanup applied to request bodies read out of a zero-padded buffer.
pub fn trim_null_bytes(data_str: &str) -> (r: String)
    ensures
        r@ == trim_spec(trim_nuls_spec(data_str@)),
{
    let t = trim_nuls_str(data_str);
    let t = trim_ws_str(t);
    t.to_owned()
}

/// Whether the characters of `a` and those of `b` are the same.
pub fn str_eq(a: &str, b: &str) -> (r: bool)
    ensures
        r == (a@ == b@),
{
    let x: String = a.to_owned();
    let y: String = b.to_owned();
    x == y
}

/// The decimal digits of `n`, most significant first, as ASCII bytes.
pub open spec fn dec_digits(n: nat) -> Seq<u8>
    decreases n,
{
    if n < 10 {
        seq![(0x30 + n) as u8]
    } else {
        dec_digits((n / 10) as nat).push((0x30 + n % 10) as u8)
    }
}

/// The numeric value of a big-endian sequence of ASCII decimal digits.
pub open spec fn digits_val(s: Seq<u8>) -> int
    decreases s.len(),
{
    if s.len() == 0 {
        0
    } else {
        digits_val(s.drop_last()) * 10 + (s.last() - 0x30)
    }
}

/// The decimal rendering of `n` is non-empty, made of digits only, and
/// evaluates back to `n`.
pub proof fn lemma_dec_digits(n: nat)
    ensures
        dec_digits(n).len() >= 1,
        forall|i: int| 0 <= i < dec_digits(n).len() ==> 0x30 <= #[trigger] dec_digits(n)[i] <= 0x39,
        digits_val(dec_digits(n)) == n,
    decreases n,
{
    if n < 10 {
        assert(dec_digits(n).drop_last() =~= Seq::<u8>::empty());
        assert(digits_val(Seq::<u8>::empty()) == 0);
        assert(dec_digits(n).last() == (0x30 + n) as u8);
        assert(digits_val(dec_digits(n)) == n);
    } else {
        lemma_dec_digits((n / 10) as nat);
        let d = dec_digits(n);
        let prev = dec_digits((n / 10) as nat);
        assert(d.drop_last() =~= prev);
        assert forall|i: int| 0 <= i < d.len() implies 0x30 <= #[trigger] d[i] <= 0x39 by {
            if i < d.len() - 1 {
                assert(d[i] == prev[i]);
            }
        }
        assert(digits_val(d.drop_last()) == n / 10);
        assert(d.last() == (0x30 + n % 10) as u8);
        assert(d.last() - 0x30 == n % 10);
        assert(digits_val(d) == (n / 10) * 10 + n % 10);
        assert(n == (n / 10) * 10 + n % 10);
    }
}

/// The decimal digits of `n`, most significant first.
pub fn u16_dec_digits(n: u16) -> (v: Vec<u8>)
    ensures
        v@ == dec_digits(n as nat),
    decreases n,
{
    if n < 10 {
        let mut v: Vec<u8> = Vec::new();
        v.push(0x30u8 + (n as u8));
        proof {
            assert(v@ =~= seq![(0x30 + n as nat) as u8]);
        }
        v
    } else {
        let mut v = u16_dec_digits(n / 10);
        v.push(0x30u8 + ((n % 10) as u8));
        proof {
            assert((n / 10) as nat == (n as nat) / 10);
            assert((n % 10) as nat == (n as nat) % 10);
        }
        v
    }
}

/// Append the bytes of `src` to `out`.
pub fn append_bytes(out: &mut Vec<u8>, src: &[u8])
    ensures
        final(out)@ == old(out)@ + src@,
{
    let mut i: usize = 0;
    while i < src.len()
        invariant
            i <= src.len(),
            out@ == old(out)@ + src@.subrange(0, i as int),
        decreases src.len() - i,
    {
        let b = src[i];
        out.push(b);
        proof {
            assert(old(out)@ + src@.subrange(0, i as int) + seq![src@[i as int]] =~= old(out)@
                + src@.subrange(0, i + 1));
        }
        i += 1;
    }
    proof {
        assert(src@.subrange(0, src@.len() as int) =~= src@);
    }
}

/// Append the UTF-8 bytes of `s` to `out`.
pub fn append_str_bytes(out: &mut Vec<u8>, s: &str)
    ensures
        final(out)@ == old(out)@ + vstd::utf8::encode_utf8(s@),
{
    append_bytes(out, s.as_bytes());
}

} // verus!

