//! Random tokens, password hashes and the base64 text that carries them.

use crate::text;
use base64::engine::general_purpose::{STANDARD, STANDARD_NO_PAD, URL_SAFE_NO_PAD};
use base64::Engine;
use rand::rngs::OsRng;
use rand::RngCore;
use sha2::{Digest, Sha256};
use vstd::prelude::*;
use vstd::utf8::*;

verus! {

/// The base64 symbol of a number below 64, in the standard or the URL-safe
/// alphabet of RFC 4648.
pub open spec fn base64_symbol(n: int, url_safe: bool) -> char {
    if n < 26 {
        ((0x41 + n) as u8) as char
    } else if n < 52 {
        ((0x61 + n - 26) as u8) as char
    } else if n < 62 {
        ((0x30 + n - 52) as u8) as char
    } else if n == 62 {
        if url_safe {
            '-'
        } else {
            '+'
        }
    } else if url_safe {
        '_'
    } else {
        '/'
    }
}

/// The base64 text of a run of bytes: four symbols for each three bytes, two
/// or three symbols for what is left, and `=` up to a multiple of four where
/// the text is padded.
pub open spec fn base64_text(bytes: Seq<u8>, url_safe: bool, padded: bool) -> Seq<char>
    decreases bytes.len(),
{
    let a = bytes[0] as int;
    let b = bytes[1] as int;
    let c = bytes[2] as int;
    if bytes.len() == 0 {
        Seq::empty()
    } else if bytes.len() == 1 {
        seq![base64_symbol(a / 4, url_safe), base64_symbol(a % 4 * 16, url_safe)] + if padded {
            seq!['=', '=']
        } else {
            Seq::empty()
        }
    } else if bytes.len() == 2 {
        seq![
            base64_symbol(a / 4, url_safe),
            base64_symbol(a % 4 * 16 + b / 16, url_safe),
            base64_symbol(b % 16 * 4, url_safe),
        ] + if padded {
            seq!['=']
        } else {
            Seq::empty()
        }
    } else {
        seq![
            base64_symbol(a / 4, url_safe),
            base64_symbol(a % 4 * 16 + b / 16, url_safe),
            base64_symbol(b % 16 * 4 + c / 64, url_safe),
            base64_symbol(c % 64, url_safe),
        ] + base64_text(bytes.skip(3), url_safe, padded)
    }
}

/// The bytes whose padded standard base64 text is given, where there are any.
pub open spec fn base64_bytes(s: Seq<char>) -> Option<Seq<u8>> {
    if exists|bytes: Seq<u8>| base64_text(bytes, false, true) == s {
        Some(choose|bytes: Seq<u8>| base64_text(bytes, false, true) == s)
    } else {
        None
    }
}

/// The SHA-256 digest of a run of bytes.
pub uninterp spec fn sha256_digest(data: Seq<u8>) -> Seq<u8>;

/// The lower-case hexadecimal digit of a number below 16.
pub open spec fn lower_hex(d: int) -> char {
    if d < 10 {
        ((0x30 + d) as u8) as char
    } else {
        ((0x57 + d) as u8) as char
    }
}

/// Two lower-case hexadecimal digits for each byte.
pub open spec fn hex_text(bytes: Seq<u8>) -> Seq<char>
    decreases bytes.len(),
{
    if bytes.len() == 0 {
        Seq::empty()
    } else {
        hex_text(bytes.drop_last()).push(lower_hex(bytes.last() as int / 16)).push(
            lower_hex(bytes.last() as int % 16),
        )
    }
}

/// The bytes that are digested for a password under a salt.
pub open spec fn salted_input(salt: Seq<char>, password: Seq<char>) -> Seq<u8> {
    encode_utf8(salt) + seq![0x3au8] + encode_utf8(password)
}

/// What is stored of a password: a version, the salt and the digest.
pub open spec fn stored_form(salt: Seq<char>, digest: Seq<u8>) -> Seq<char> {
    "v1"@ + seq!['$'] + salt + seq!['$'] + hex_text(digest)
}

/// What is stored of a password under a salt.
pub open spec fn stored_password(salt: Seq<char>, password: Seq<char>) -> Seq<char> {
    stored_form(salt, sha256_digest(salted_input(salt, password)))
}

/// Whether something can be stored of a password: it has a token for its salt.
pub open spec fn is_hash_of(password: Seq<char>, stored: Seq<char>) -> bool {
    exists|salt: Seq<char>| is_token(salt) && stored == stored_password(salt, password)
}

/// The bytes to digest to learn whether a password is the one that was stored,
/// and the hexadecimal text that their digest then has. What does not start
/// with the version is taken as a digest without a salt. Nothing matches a
/// version without a salt.
pub open spec fn digest_question(password: Seq<char>, stored: Seq<char>) -> Option<
    (Seq<u8>, Seq<char>),
> {
    match text::cut(stored, '$') {
        Some((version, rest)) if version == "v1"@ => match text::cut(rest, '$') {
            Some((salt, digest)) => Some((salted_input(salt, password), digest)),
            None => None,
        },
        _ => Some((encode_utf8(password), stored)),
    }
}

/// Whether a password is the one that was stored.
pub open spec fn password_matches(password: Seq<char>, stored: Seq<char>) -> bool {
    match digest_question(password, stored) {
        Some((data, expected)) => hex_text(sha256_digest(data)) == expected,
        None => false,
    }
}

/// Whether a text can be a token: the unpadded base64 text of 32 bytes.
pub open spec fn is_token(s: Seq<char>) -> bool {
    exists|bytes: Seq<u8>| bytes.len() == 32 && s == base64_text(bytes, false, false)
}

/// Every symbol of an unpadded base64 text is a letter, a digit or one of the
/// two further symbols of its alphabet, and their number is four thirds of the
/// number of bytes, rounded up.
pub proof fn lemma_base64_symbols(bytes: Seq<u8>, url_safe: bool)
    ensures
        base64_text(bytes, url_safe, false).len() == (bytes.len() * 4 + 2) / 3,
        forall|i: int|
            0 <= i < base64_text(bytes, url_safe, false).len() ==> exists|n: int|
                0 <= n < 64 && #[trigger] base64_text(bytes, url_safe, false)[i]
                    == #[trigger] base64_symbol(n, url_safe),
    decreases bytes.len(),
{
    let s = base64_text(bytes, url_safe, false);
    let a = bytes[0] as int;
    let b = bytes[1] as int;
    let c = bytes[2] as int;
    if bytes.len() >= 3 {
        lemma_base64_symbols(bytes.skip(3), url_safe);
        let rest = base64_text(bytes.skip(3), url_safe, false);
        assert forall|i: int| 0 <= i < s.len() implies exists|n: int|
            0 <= n < 64 && #[trigger] s[i] == #[trigger] base64_symbol(n, url_safe) by {
            if i >= 4 {
                assert(s[i] == rest[i - 4]);
            } else {
                assert(0 <= a / 4 < 64);
                assert(0 <= a % 4 * 16 + b / 16 < 64);
                assert(0 <= b % 16 * 4 + c / 64 < 64);
                assert(0 <= c % 64 < 64);
            }
        }
    } else if bytes.len() == 2 {
        assert(0 <= a / 4 < 64);
        assert(0 <= a % 4 * 16 + b / 16 < 64);
        assert(0 <= b % 16 * 4 < 64);
    } else if bytes.len() == 1 {
        assert(0 <= a / 4 < 64);
        assert(0 <= a % 4 * 16 < 64);
    }
}

/// A number below 64 is known from its symbol, which is not `=`.
proof fn lemma_base64_symbol(m: int, n: int)
    requires
        0 <= m < 64,
        0 <= n < 64,
    ensures
        base64_symbol(m, false) == base64_symbol(n, false) ==> m == n,
        base64_symbol(m, false) != '=',
{
}

/// Bytes have an empty base64 text only where there are none.
proof fn lemma_base64_empty(bytes: Seq<u8>)
    ensures
        base64_text(bytes, false, true).len() == 0 <==> bytes.len() == 0,
{
    if bytes.len() > 0 {
        let text = base64_text(bytes, false, true);
        if bytes.len() == 1 {
            assert(text.len() == 4);
        } else if bytes.len() == 2 {
            assert(text.len() == 4);
        } else {
            assert(text.len() == 4 + base64_text(bytes.skip(3), false, true).len());
        }
    }
}

/// Bytes are known from their padded base64 text.
proof fn lemma_base64_injective(x: Seq<u8>, y: Seq<u8>)
    requires
        base64_text(x, false, true) == base64_text(y, false, true),
    ensures
        x == y,
    decreases x.len(),
{
    let s = base64_text(x, false, true);
    let t = base64_text(y, false, true);
    lemma_base64_empty(x);
    lemma_base64_empty(y);
    if x.len() == 0 || y.len() == 0 {
        assert(x =~= y);
    } else {
        let (a, b, c) = (x[0] as int, x[1] as int, x[2] as int);
        let (d, e, f) = (y[0] as int, y[1] as int, y[2] as int);
        assert(s[0] == base64_symbol(a / 4, false) && t[0] == base64_symbol(d / 4, false));
        lemma_base64_symbol(a / 4, d / 4);
        if x.len() == 1 {
            assert(s[1] == base64_symbol(a % 4 * 16, false));
            if y.len() == 1 {
                assert(t[1] == base64_symbol(d % 4 * 16, false));
                lemma_base64_symbol(a % 4 * 16, d % 4 * 16);
                assert(x =~= y);
            } else if y.len() == 2 {
                assert(s[2] == '=');
                assert(t[2] == base64_symbol(e % 16 * 4, false));
                lemma_base64_symbol(e % 16 * 4, 0);
            } else {
                assert(s[2] == '=');
                assert(t[2] == base64_symbol(e % 16 * 4 + f / 64, false));
                lemma_base64_symbol(e % 16 * 4 + f / 64, 0);
            }
        } else if x.len() == 2 {
            assert(s[1] == base64_symbol(a % 4 * 16 + b / 16, false));
            assert(s[2] == base64_symbol(b % 16 * 4, false));
            assert(s[3] == '=');
            lemma_base64_symbol(b % 16 * 4, 0);
            if y.len() == 1 {
                assert(t[2] == '=');
            } else if y.len() == 2 {
                assert(t[1] == base64_symbol(d % 4 * 16 + e / 16, false));
                assert(t[2] == base64_symbol(e % 16 * 4, false));
                lemma_base64_symbol(a % 4 * 16 + b / 16, d % 4 * 16 + e / 16);
                lemma_base64_symbol(b % 16 * 4, e % 16 * 4);
                assert(x =~= y);
            } else {
                assert(t[3] == base64_symbol(f % 64, false));
                lemma_base64_symbol(f % 64, 0);
            }
        } else {
            assert(s[1] == base64_symbol(a % 4 * 16 + b / 16, false));
            assert(s[2] == base64_symbol(b % 16 * 4 + c / 64, false));
            assert(s[3] == base64_symbol(c % 64, false));
            lemma_base64_symbol(b % 16 * 4 + c / 64, 0);
            lemma_base64_symbol(c % 64, 0);
            if y.len() == 1 {
                assert(t[2] == '=');
            } else if y.len() == 2 {
                assert(t[3] == '=');
            } else {
                assert(t[1] == base64_symbol(d % 4 * 16 + e / 16, false));
                assert(t[2] == base64_symbol(e % 16 * 4 + f / 64, false));
                assert(t[3] == base64_symbol(f % 64, false));
                lemma_base64_symbol(a % 4 * 16 + b / 16, d % 4 * 16 + e / 16);
                lemma_base64_symbol(b % 16 * 4 + c / 64, e % 16 * 4 + f / 64);
                lemma_base64_symbol(c % 64, f % 64);
                assert(base64_text(x.skip(3), false, true) =~= s.skip(4));
                assert(base64_text(y.skip(3), false, true) =~= t.skip(4));
                lemma_base64_injective(x.skip(3), y.skip(3));
                assert(x =~= seq![x[0], x[1], x[2]] + x.skip(3));
                assert(y =~= seq![y[0], y[1], y[2]] + y.skip(3));
            }
        }
    }
}

/// The bytes of a padded base64 text are those that it was made of.
pub proof fn lemma_base64_bytes(bytes: Seq<u8>)
    ensures
        base64_bytes(base64_text(bytes, false, true)) == Some(bytes),
{
    let s = base64_text(bytes, false, true);
    let found = choose|b: Seq<u8>| base64_text(b, false, true) == s;
    assert(base64_text(found, false, true) == s);
    lemma_base64_injective(found, bytes);
}

/// A token is 43 letters, digits, `+` and `/`.
pub proof fn lemma_token_symbols(s: Seq<char>)
    requires
        is_token(s),
    ensures
        s.len() == 43,
        forall|i: int|
            0 <= i < s.len() ==> exists|n: int|
                0 <= n < 64 && #[trigger] s[i] == #[trigger] base64_symbol(n, false),
{
    let bytes = choose|bytes: Seq<u8>| bytes.len() == 32 && s == base64_text(bytes, false, false);
    lemma_base64_symbols(bytes, false);
}

/// A token holds no `$`.
proof fn lemma_token_has_no_dollar(s: Seq<char>)
    requires
        is_token(s),
    ensures
        !s.contains('$'),
{
    lemma_token_symbols(s);
    if s.contains('$') {
        let i = choose|i: int| 0 <= i < s.len() && s[i] == '$';
        let n = choose|n: int| 0 <= n < 64 && s[i] == base64_symbol(n, false);
        assert(s[i] == base64_symbol(n, false));
    }
}

/// A password matches what is stored of it under any salt without a `$`.
pub proof fn lemma_salted_password_matches(password: Seq<char>, salt: Seq<char>)
    requires
        !salt.contains('$'),
    ensures
        password_matches(password, stored_password(salt, password)),
{
    reveal_strlit("v1");
    let digest = hex_text(sha256_digest(salted_input(salt, password)));
    let rest = salt + seq!['$'] + digest;
    assert(stored_password(salt, password) =~= "v1"@ + seq!['$'] + rest);
    text::lemma_cut("v1"@, '$', rest);
    text::lemma_cut(salt, '$', digest);
}

/// A password matches whatever is stored of it.
pub proof fn lemma_hash_matches(password: Seq<char>, stored: Seq<char>)
    requires
        is_hash_of(password, stored),
    ensures
        password_matches(password, stored),
{
    let salt = choose|salt: Seq<char>|
        is_token(salt) && stored == stored_password(salt, password);
    lemma_token_has_no_dollar(salt);
    lemma_salted_password_matches(password, salt);
}

proof fn lemma_lower_hex(m: int, n: int)
    requires
        0 <= m < 16,
        0 <= n < 16,
        lower_hex(m) == lower_hex(n),
    ensures
        m == n,
{
}

/// Bytes are known from their hexadecimal text.
proof fn lemma_hex_injective(x: Seq<u8>, y: Seq<u8>)
    requires
        hex_text(x) == hex_text(y),
    ensures
        x == y,
    decreases x.len(),
{
    let s = hex_text(x);
    let t = hex_text(y);
    if x.len() > 0 && y.len() > 0 {
        let (a, b) = (x.last() as int, y.last() as int);
        let (xs, ys) = (hex_text(x.drop_last()), hex_text(y.drop_last()));
        assert(s == xs.push(lower_hex(a / 16)).push(lower_hex(a % 16)));
        assert(t == ys.push(lower_hex(b / 16)).push(lower_hex(b % 16)));
        assert(s.len() == xs.len() + 2 && t.len() == ys.len() + 2);
        assert(s[s.len() - 1] == lower_hex(a % 16) && t[t.len() - 1] == lower_hex(b % 16));
        assert(s[s.len() - 2] == lower_hex(a / 16) && t[t.len() - 2] == lower_hex(b / 16));
        lemma_lower_hex(a % 16, b % 16);
        lemma_lower_hex(a / 16, b / 16);
        assert(s.take(s.len() - 2) =~= xs && t.take(t.len() - 2) =~= ys);
        lemma_hex_injective(x.drop_last(), y.drop_last());
        assert(x =~= x.drop_last().push(x.last()) && y =~= y.drop_last().push(y.last()));
    } else if x.len() > 0 {
        assert(s.len() == hex_text(x.drop_last()).len() + 2);
    } else if y.len() > 0 {
        assert(t.len() == hex_text(y.drop_last()).len() + 2);
    }
    assert(x =~= y);
}

/// Another password matches what is stored of a password only where two
/// different inputs have the same SHA-256 digest.
pub proof fn lemma_other_password_needs_a_collision(
    password: Seq<char>,
    other: Seq<char>,
    stored: Seq<char>,
)
    requires
        is_hash_of(password, stored),
        other != password,
        password_matches(other, stored),
    ensures
        exists|salt: Seq<char>|
            is_token(salt) && stored == stored_password(salt, password) && #[trigger] salted_input(
                salt,
                password,
            ) != salted_input(salt, other) && sha256_digest(salted_input(salt, password))
                == sha256_digest(salted_input(salt, other)),
{
    let salt = choose|salt: Seq<char>|
        is_token(salt) && stored == stored_password(salt, password);
    let (data, data2) = (salted_input(salt, password), salted_input(salt, other));
    let digest = hex_text(sha256_digest(data));
    let rest = salt + seq!['$'] + digest;
    lemma_token_has_no_dollar(salt);
    reveal_strlit("v1");
    assert(stored =~= "v1"@ + seq!['$'] + rest);
    text::lemma_cut("v1"@, '$', rest);
    text::lemma_cut(salt, '$', digest);
    lemma_hex_injective(sha256_digest(data), sha256_digest(data2));
    let n = encode_utf8(salt).len() + 1;
    assert(data.skip(n as int) =~= encode_utf8(password));
    assert(data2.skip(n as int) =~= encode_utf8(other));
    encode_utf8_decode_utf8(password);
    encode_utf8_decode_utf8(other);
}

/// `OsRng::fill_bytes`: 32 bytes from the random number generator of the
/// operating system. Nothing is said of which bytes they are. It panics where
/// the system has none to give.
#[verifier::external_body]
fn random_bytes() -> [u8; 32] {
    let mut bytes = [0_u8; 32];
    OsRng.fill_bytes(&mut bytes);
    bytes
}

/// `Engine::encode` of `STANDARD_NO_PAD`: the base64 text of the bytes in the
/// standard alphabet, without padding.
#[verifier::external_body]
fn encode_standard(bytes: &[u8; 32]) -> (s: String)
    ensures
        s@ == base64_text(bytes@, false, false),
{
    STANDARD_NO_PAD.encode(bytes)
}

/// `Engine::encode` of `URL_SAFE_NO_PAD`: the base64 text of the bytes in the
/// URL-safe alphabet, without padding. The bound keeps the length of the text
/// within what can be allocated.
#[verifier::external_body]
pub(crate) fn encode_url_safe(bytes: &[u8]) -> (s: String)
    requires
        bytes@.len() <= 0x1000_0000,
    ensures
        s@ == base64_text(bytes@, true, false),
{
    URL_SAFE_NO_PAD.encode(bytes)
}

/// `Engine::decode` of `STANDARD`: the bytes whose base64 text, in the standard
/// alphabet and with its padding, is `s`. There is no result exactly where `s`
/// is the padded text of no bytes.
#[verifier::external_body]
pub(crate) fn decode_standard(s: &str) -> (r: Option<Vec<u8>>)
    ensures
        match r {
            Some(bytes) => base64_text(bytes@, false, true) == s@,
            None => forall|bytes: Seq<u8>| base64_text(bytes, false, true) != s@,
        },
{
    STANDARD.decode(s).ok()
}

/// `Sha256::digest`: the SHA-256 digest of the data, which is 32 bytes long.
#[verifier::external_body]
fn sha256(data: &[u8]) -> (r: Vec<u8>)
    ensures
        r@ == sha256_digest(data@),
        r@.len() == 32,
{
    Sha256::digest(data).to_vec()
}

/// Two lower-case hexadecimal digits for each byte.
pub fn hex(bytes: &Vec<u8>) -> (r: String)
    ensures
        r@ == hex_text(bytes@),
{
    let mut r: String = String::new();
    let mut i: usize = 0;
    assert(bytes@.take(0) =~= Seq::empty());
    while i < bytes.len()
        invariant
            i <= bytes@.len(),
            r@ == hex_text(bytes@.take(i as int)),
        decreases bytes@.len() - i,
    {
        assert(bytes@.take(i + 1).drop_last() =~= bytes@.take(i as int));
        r.push(hex_digit(bytes[i] / 16));
        r.push(hex_digit(bytes[i] % 16));
        i += 1;
    }
    assert(bytes@.take(i as int) =~= bytes@);
    r
}

fn hex_digit(d: u8) -> (c: char)
    requires
        d < 16,
    ensures
        c == lower_hex(d as int),
{
    if d < 10 {
        (0x30 + d) as char
    } else {
        (0x57 + d) as char
    }
}

/// Appends the bytes of `b` to `a`.
fn append_bytes(a: &mut Vec<u8>, b: &[u8])
    ensures
        final(a)@ == old(a)@ + b@,
{
    let mut i: usize = 0;
    while i < b.len()
        invariant
            i <= b@.len(),
            a@ == old(a)@ + b@.take(i as int),
        decreases b@.len() - i,
    {
        a.push(b[i]);
        i += 1;
    }
    assert(b@.take(i as int) =~= b@);
}

/// A token made of 32 random bytes.
pub fn random_token() -> (s: String)
    ensures
        is_token(s@),
{
    let bytes: [u8; 32] = random_bytes();
    let s: String = encode_standard(&bytes);
    assert(bytes@.len() == 32);
    s
}

/// The bytes that are digested for a password under a salt.
pub fn salted_bytes(salt: &str, password: &str) -> (data: Vec<u8>)
    ensures
        data@ == salted_input(salt@, password@),
{
    let mut data: Vec<u8> = Vec::new();
    append_bytes(&mut data, salt.as_bytes());
    data.push(0x3a);
    append_bytes(&mut data, password.as_bytes());
    assert(data@ =~= salted_input(salt@, password@));
    data
}

/// What is stored of a salt and a digest.
pub fn store_digest(salt: &str, digest: &Vec<u8>) -> (r: String)
    ensures
        r@ == stored_form(salt@, digest@),
{
    let head: String = text::concat("v1", "$");
    let head: String = text::concat(&text::concat(&head, salt), "$");
    proof {
        reveal_strlit("$");
        assert("$"@ =~= seq!['$']);
    }
    text::concat(&head, &hex(digest))
}

/// What is stored of a password under a given salt.
pub fn hash_password_with_salt(password: &str, salt: &str) -> (r: String)
    ensures
        r@ == stored_password(salt@, password@),
{
    store_digest(salt, &sha256(&salted_bytes(salt, password)))
}

/// What is stored of a password, under a salt that is a new random token.
pub fn hash_password(password: &str) -> (r: String)
    ensures
        is_hash_of(password@, r@),
        password_matches(password@, r@),
{
    let salt: String = random_token();
    let r: String = hash_password_with_salt(password, &salt);
    proof {
        lemma_hash_matches(password@, r@);
    }
    r
}

/// The hexadecimal digest of a password without a salt.
pub fn legacy_hash_password(password: &str) -> (r: String)
    ensures
        r@ == hex_text(sha256_digest(encode_utf8(password@))),
{
    hex(&sha256(password.as_bytes()))
}

/// What to digest to learn whether a password is the one that was stored, and
/// the hexadecimal text to expect.
pub fn ask_digest(password: &str, stored: &str) -> (r: Option<(Vec<u8>, String)>)
    ensures
        text::opt_view(r) == digest_question(password@, stored@),
{
    if let Some((version, rest)) = text::split_once(stored, '$') {
        if text::same(&version, "v1") {
            return match text::split_once(&rest, '$') {
                Some((salt, digest)) => Some((salted_bytes(&salt, password), digest)),
                None => None,
            };
        }
    }
    let mut data: Vec<u8> = Vec::new();
    append_bytes(&mut data, password.as_bytes());
    assert(data@ =~= encode_utf8(password@));
    Some((data, stored.to_owned()))
}

/// Whether a digest has a given hexadecimal text.
pub fn digest_agrees(digest: &Vec<u8>, expected: &str) -> (r: bool)
    ensures
        r == (hex_text(digest@) == expected@),
{
    text::same(&hex(digest), expected)
}

/// Whether a password is the one that was stored.
pub fn verify_password(password: &str, stored: &str) -> (r: bool)
    ensures
        r == password_matches(password@, stored@),
{
    match ask_digest(password, stored) {
        Some((data, expected)) => digest_agrees(&sha256(&data), &expected),
        None => false,
    }
}

/// Bytes that are read from a base64 text have that text.
pub proof fn lemma_base64_bytes_text(s: Seq<char>)
    ensures
        base64_bytes(s) matches Some(bytes) ==> base64_text(bytes, false, true) == s,
        base64_bytes(s) is None ==> forall|bytes: Seq<u8>|
            #[trigger] base64_text(bytes, false, true) != s,
{
}

/// What is digested for a password is the UTF-8 form of the salt, a `:` and the
/// password.
pub proof fn lemma_salted_input(salt: Seq<char>, password: Seq<char>)
    ensures
        salted_input(salt, password) == encode_utf8(salt + seq![':'] + password),
{
    assert(is_ascii_chars(seq![':']));
    is_ascii_chars_encode_utf8(seq![':']);
    assert(encode_utf8(seq![':']) =~= seq![0x3au8]);
    crate::percent::lemma_encode_utf8_concat(salt + seq![':'], password);
    crate::percent::lemma_encode_utf8_concat(salt, seq![':']);
}

/// What is stored of a password is a version, the salt, and the digest of the
/// two in hexadecimal, with a `$` between each two of them.
pub proof fn lemma_stored_parts(salt: Seq<char>, password: Seq<char>)
    requires
        !salt.contains('$'),
    ensures
        text::cut(stored_password(salt, password), '$') matches Some((version, rest)) && version
            == "v1"@ && text::cut(rest, '$') == Some(
            (salt, hex_text(sha256_digest(encode_utf8(salt + seq![':'] + password)))),
        ),
{
    reveal_strlit("v1");
    lemma_salted_input(salt, password);
    let digest = hex_text(sha256_digest(salted_input(salt, password)));
    let rest = salt + seq!['$'] + digest;
    assert(stored_password(salt, password) =~= "v1"@ + seq!['$'] + rest);
    text::lemma_cut("v1"@, '$', rest);
    text::lemma_cut(salt, '$', digest);
}

/// Hexadecimal text goes byte by byte, two digits each, the higher first, and
/// letters are in lower case.
pub proof fn lemma_hex_text(a: Seq<u8>, b: u8)
    ensures
        hex_text(a.push(b)) == hex_text(a) + seq![lower_hex(b as int / 16), lower_hex(
            b as int % 16,
        )],
        hex_text(a).len() == 2 * a.len(),
        forall|d: int|
            0 <= d < 16 ==> #[trigger] lower_hex(d) as u32 == (if d < 10 {
                '0' as u32 + d
            } else {
                'a' as u32 + d - 10
            }),
    decreases a.len(),
{
    assert(a.push(b).drop_last() =~= a);
    assert(hex_text(a.push(b)) =~= hex_text(a) + seq![lower_hex(b as int / 16), lower_hex(
        b as int % 16,
    )]);
    if a.len() > 0 {
        lemma_hex_text(a.drop_last(), a.last());
        assert(a =~= a.drop_last().push(a.last()));
    }
}

proof fn lemma_hex_has_no_dollar(bytes: Seq<u8>)
    ensures
        !hex_text(bytes).contains('$'),
    decreases bytes.len(),
{
    if bytes.len() > 0 {
        let rest = hex_text(bytes.drop_last());
        let s = hex_text(bytes);
        lemma_hex_has_no_dollar(bytes.drop_last());
        assert forall|i: int| 0 <= i < s.len() implies s[i] != '$' by {
            if i < rest.len() {
                assert(s[i] == rest[i]);
                assert(rest.contains(rest[i]));
            }
        }
    }
}

/// A password matches the plain digest that older installations stored of it.
pub proof fn lemma_legacy_hash_matches(password: Seq<char>)
    ensures
        password_matches(password, hex_text(sha256_digest(encode_utf8(password)))),
{
    let stored = hex_text(sha256_digest(encode_utf8(password)));
    lemma_hex_has_no_dollar(sha256_digest(encode_utf8(password)));
    text::lemma_cut_parts(stored, '$');
    if let Some((before, after)) = text::cut(stored, '$') {
        assert(stored[before.len() as int] == '$');
        assert(stored.contains('$'));
    }
}

/// A password matches what is stored under a version and a salt exactly where
/// the digest of the two has the stored hexadecimal text. What has no version is
/// the hexadecimal text of the password itself, and a version alone matches
/// nothing.
pub proof fn lemma_password_matches(
    password: Seq<char>,
    salt: Seq<char>,
    digest: Seq<char>,
    other: Seq<char>,
)
    requires
        !salt.contains('$'),
    ensures
        password_matches(password, "v1$"@ + salt + seq!['$'] + digest) <==> hex_text(
            sha256_digest(encode_utf8(salt + seq![':'] + password)),
        ) == digest,
        !password_matches(password, "v1$"@ + salt),
        !"v1$"@.is_prefix_of(other) ==> (password_matches(password, other) <==> hex_text(
            sha256_digest(encode_utf8(password)),
        ) == other),
{
    reveal_strlit("v1");
    reveal_strlit("v1$");
    let rest = salt + seq!['$'] + digest;
    lemma_salted_input(salt, password);
    assert(!"v1"@.contains('$'));
    assert("v1$"@ + salt + seq!['$'] + digest =~= "v1"@ + seq!['$'] + rest);
    assert("v1$"@ + salt =~= "v1"@ + seq!['$'] + salt);
    text::lemma_cut("v1"@, '$', rest);
    text::lemma_cut("v1"@, '$', salt);
    text::lemma_cut(salt, '$', digest);
    text::lemma_cut_parts(salt, '$');
    if let Some((before, after)) = text::cut(salt, '$') {
        assert(salt[before.len() as int] == '$');
        assert(salt.contains('$'));
    }
    text::lemma_cut_parts(other, '$');
    if let Some((version, after)) = text::cut(other, '$') {
        if version == "v1"@ {
            assert("v1$"@ =~= other.take(3));
        }
    }
}

/// The alphabets of base64: capitals, small letters and digits, and two more
/// that differ between the standard and the URL-safe one.
pub proof fn lemma_base64_alphabet(n: int)
    ensures
        0 <= n < 26 ==> base64_symbol(n, true) as u32 == 'A' as u32 + n,
        26 <= n < 52 ==> base64_symbol(n, true) as u32 == 'a' as u32 + n - 26,
        52 <= n < 62 ==> base64_symbol(n, true) as u32 == '0' as u32 + n - 52,
        0 <= n < 62 ==> base64_symbol(n, false) == base64_symbol(n, true),
        base64_symbol(62, false) == '+' && base64_symbol(63, false) == '/',
        base64_symbol(62, true) == '-' && base64_symbol(63, true) == '_',
{
}

} // verus!
