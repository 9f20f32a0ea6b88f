//! What the headers of a request say of its sender.

use crate::secrets;
use crate::text;
use vstd::prelude::*;
use vstd::utf8::*;

verus! {

/// The headers of a request that are read: for each, the bytes of its first
/// value.
#[derive(Debug)]
pub struct RequestHeaders {
    pub cookie: Option<Vec<u8>>,
    pub authorization: Option<Vec<u8>>,
    pub forwarded_for: Option<Vec<u8>>,
    pub real_ip: Option<Vec<u8>>,
}

/// The bytes of the headers that are read.
pub struct HeadersModel {
    pub cookie: Option<Seq<u8>>,
    pub authorization: Option<Seq<u8>>,
    pub forwarded_for: Option<Seq<u8>>,
    pub real_ip: Option<Seq<u8>>,
}

impl View for RequestHeaders {
    type V = HeadersModel;

    open spec fn view(&self) -> HeadersModel {
        HeadersModel {
            cookie: text::opt_view(self.cookie),
            authorization: text::opt_view(self.authorization),
            forwarded_for: text::opt_view(self.forwarded_for),
            real_ip: text::opt_view(self.real_ip),
        }
    }
}

/// Whether a byte of a header is a visible ASCII character, a space or a tab.
pub open spec fn visible(b: u8) -> bool {
    0x20 <= b < 0x7f || b == 0x9
}

/// The text of the value of a header, where it has one and all its bytes are
/// visible.
pub open spec fn header_text(value: Option<Seq<u8>>) -> Option<Seq<char>> {
    match value {
        Some(bytes) if forall|i: int| 0 <= i < bytes.len() ==> visible(#[trigger] bytes[i]) => Some(
            Seq::new(bytes.len(), |i: int| bytes[i] as char),
        ),
        _ => None,
    }
}

/// The token in one part of a cookie header, where the part is named
/// `rf_session`.
pub open spec fn token_in_part(part: Seq<char>) -> Option<Seq<char>> {
    match text::cut(text::trimmed(part), '=') {
        Some((key, value)) if key == "rf_session"@ => Some(value),
        _ => None,
    }
}

/// The token in the first part that is named `rf_session`.
pub open spec fn first_token(parts: Seq<Seq<char>>) -> Option<Seq<char>>
    decreases parts.len(),
{
    if parts.len() == 0 {
        None
    } else if token_in_part(parts[0]) is Some {
        token_in_part(parts[0])
    } else {
        first_token(parts.drop_first())
    }
}

/// The session token that a request carries.
pub open spec fn token_of(headers: HeadersModel) -> Option<Seq<char>> {
    match header_text(headers.cookie) {
        Some(cookie) => first_token(text::pieces(cookie, ';')),
        None => None,
    }
}

/// The text that a run of bytes encodes, where it encodes one.
pub open spec fn utf8_text(bytes: Seq<u8>) -> Option<Seq<char>> {
    if valid_utf8(bytes) {
        Some(decode_utf8(bytes))
    } else {
        None
    }
}

/// The name and the password in the value of an authorization header of the
/// scheme `Basic`.
pub open spec fn basic_pair(value: Seq<char>) -> Option<(Seq<char>, Seq<char>)> {
    if "Basic "@.is_prefix_of(value) {
        match secrets::base64_bytes(value.skip(6)) {
            Some(bytes) => match utf8_text(bytes) {
                Some(pair) => text::cut(pair, ':'),
                None => None,
            },
            None => None,
        }
    } else {
        None
    }
}

/// The name and the password that a request carries.
pub open spec fn credentials_of(headers: HeadersModel) -> Option<(Seq<char>, Seq<char>)> {
    match header_text(headers.authorization) {
        Some(value) => basic_pair(value),
        None => None,
    }
}

/// The address of the client: the first one that the request was forwarded
/// for, else the one that a proxy names.
pub open spec fn address_of(headers: HeadersModel) -> Option<Seq<char>> {
    let first = match header_text(headers.forwarded_for) {
        Some(list) => text::trimmed(text::pieces(list, ',')[0]),
        None => Seq::empty(),
    };
    if first.len() > 0 {
        Some(first)
    } else {
        header_text(headers.real_ip)
    }
}

/// `String::from_utf8`: the text that a run of bytes encodes in UTF-8. There
/// is no result exactly where the bytes are not valid UTF-8.
#[verifier::external_body]
fn read_utf8(bytes: Vec<u8>) -> (r: Option<String>)
    ensures
        text::opt_view(r) == utf8_text(bytes@),
{
    String::from_utf8(bytes).ok()
}

/// The text of the value of a header.
pub fn read_header(value: &Option<Vec<u8>>) -> (r: Option<String>)
    ensures
        text::opt_view(r) == header_text(text::opt_view(*value)),
{
    match value {
        Some(bytes) => {
            let mut r: String = String::new();
            let mut i: usize = 0;
            while i < bytes.len()
                invariant
                    i <= bytes@.len(),
                    *value == Some(*bytes),
                    r@ == Seq::new(i as nat, |j: int| bytes@[j] as char),
                    forall|j: int| 0 <= j < i ==> visible(#[trigger] bytes@[j]),
                decreases bytes@.len() - i,
            {
                let b: u8 = bytes[i];
                if !((0x20 <= b && b < 0x7f) || b == 0x9) {
                    return None;
                }
                r.push(b as char);
                assert(r@ =~= Seq::new((i + 1) as nat, |j: int| bytes@[j] as char));
                i += 1;
            }
            assert(r@ =~= Seq::new(bytes@.len(), |j: int| bytes@[j] as char));
            Some(r)
        },
        None => None,
    }
}

/// The session token that a request carries in its cookie header.
pub fn session_token(headers: &RequestHeaders) -> (r: Option<String>)
    ensures
        text::opt_view(r) == token_of(headers@),
{
    let cookie: String = match read_header(&headers.cookie) {
        Some(cookie) => cookie,
        None => {
            return None;
        },
    };
    let parts: Vec<String> = text::split(&cookie, ';');
    let ghost all = text::views(parts@);
    let mut i: usize = 0;
    assert(all.skip(0) =~= all);
    while i < parts.len()
        invariant
            i <= parts@.len(),
            all == text::views(parts@),
            token_of(headers@) == first_token(all.skip(i as int)),
        decreases parts@.len() - i,
    {
        assert(all.skip(i as int).drop_first() =~= all.skip(i + 1));
        if let Some((key, value)) = text::split_once(&text::trim(&parts[i]), '=') {
            if text::same(&key, "rf_session") {
                return Some(value);
            }
        }
        i += 1;
    }
    None
}

/// The name and the password in the value of an authorization header, once its
/// base64 text has been decoded to bytes.
pub fn pair_from_bytes(bytes: Vec<u8>) -> (r: Option<(String, String)>)
    ensures
        text::opt_view(r) == (match utf8_text(bytes@) {
            Some(pair) => text::cut(pair, ':'),
            None => None,
        }),
{
    match read_utf8(bytes) {
        Some(pair) => text::split_once(&pair, ':'),
        None => None,
    }
}

/// The name and the password that a request carries in an authorization header
/// of the scheme `Basic`.
pub fn basic_credentials(headers: &RequestHeaders) -> (r: Option<(String, String)>)
    ensures
        text::opt_view(r) == credentials_of(headers@),
{
    let value: String = match read_header(&headers.authorization) {
        Some(value) => value,
        None => {
            return None;
        },
    };
    if !text::starts_with(&value, "Basic ") {
        return None;
    }
    proof {
        reveal_strlit("Basic ");
    }
    let v: Vec<char> = text::chars_of(&value);
    let encoded: String = text::text_between(&v, 6, v.len());
    assert(encoded@ =~= value@.skip(6));
    match secrets::decode_standard(&encoded) {
        Some(bytes) => {
            proof {
                secrets::lemma_base64_bytes(bytes@);
            }
            pair_from_bytes(bytes)
        },
        None => None,
    }
}

/// The address of the client.
pub fn client_ip(headers: &RequestHeaders) -> (r: Option<String>)
    ensures
        text::opt_view(r) == address_of(headers@),
{
    if let Some(list) = read_header(&headers.forwarded_for) {
        let parts: Vec<String> = text::split(&list, ',');
        proof {
            text::lemma_pieces_len(list@, ',');
        }
        assert(text::views(parts@)[0] == parts@[0]@);
        let first: String = text::trim(&parts[0]);
        if !first.as_str().is_empty() {
            return Some(first);
        }
    }
    read_header(&headers.real_ip)
}

/// A client that sends a name and a password in the scheme `Basic` is read as
/// it meant. A name with a `:` cannot be told from the password.
pub proof fn lemma_basic_credentials_are_read(
    headers: HeadersModel,
    username: Seq<char>,
    password: Seq<char>,
)
    requires
        header_text(headers.authorization) == Some(
            "Basic "@ + secrets::base64_text(
                encode_utf8(username + seq![':'] + password),
                false,
                true,
            ),
        ),
        !username.contains(':'),
    ensures
        credentials_of(headers) == Some((username, password)),
{
    let pair = username + seq![':'] + password;
    let encoded = secrets::base64_text(encode_utf8(pair), false, true);
    reveal_strlit("Basic ");
    assert(("Basic "@ + encoded).skip(6) =~= encoded);
    assert("Basic "@ =~= ("Basic "@ + encoded).take(6));
    secrets::lemma_base64_bytes(encode_utf8(pair));
    encode_utf8_valid_utf8(pair);
    encode_utf8_decode_utf8(pair);
    text::lemma_cut(username, ':', password);
}

/// A header has a text exactly where each of its bytes is a tab or a character
/// from the space to `~`, and the text is those characters.
pub proof fn lemma_header_text(bytes: Seq<u8>)
    ensures
        header_text(None) is None,
        header_text(Some(bytes)) is Some <==> forall|i: int|
            0 <= i < bytes.len() ==> #[trigger] bytes[i] == 9 || 32 <= bytes[i] <= 126,
        header_text(Some(bytes)) matches Some(s) ==> s.len() == bytes.len() && forall|i: int|
            0 <= i < s.len() ==> #[trigger] s[i] as u32 == bytes[i],
{
    assert forall|i: int| 0 <= i < bytes.len() implies (visible(#[trigger] bytes[i]) <==> bytes[i]
        == 9 || 32 <= bytes[i] <= 126) by {}
}

/// A token is found only where a part of the cookie header gives it to
/// `rf_session`.
pub proof fn lemma_token_was_sent(headers: HeadersModel)
    ensures
        token_of(headers) matches Some(token) ==> (header_text(headers.cookie) matches Some(cookie)
            && exists|i: int|
            0 <= i < text::pieces(cookie, ';').len() && text::trimmed(
                #[trigger] text::pieces(cookie, ';')[i],
            ) == "rf_session="@ + token),
        token_of(headers) is None ==> (header_text(headers.cookie) matches Some(cookie)
            ==> forall|i: int, token: Seq<char>|
            0 <= i < text::pieces(cookie, ';').len() ==> text::trimmed(
                #[trigger] text::pieces(cookie, ';')[i],
            ) != #[trigger] ("rf_session="@ + token)),
{
    reveal_strlit("rf_session=");
    reveal_strlit("rf_session");
    if let Some(cookie) = header_text(headers.cookie) {
        let parts = text::pieces(cookie, ';');
        lemma_first_token_place(parts);
        if let Some(token) = first_token(parts) {
            let i = choose|i: int|
                0 <= i < parts.len() && token_in_part(#[trigger] parts[i]) == Some(token);
            text::lemma_cut_parts(text::trimmed(parts[i]), '=');
            assert("rf_session"@ + seq!['='] + token =~= "rf_session="@ + token);
        } else {
            assert forall|i: int, token: Seq<char>| 0 <= i < parts.len() implies text::trimmed(
                #[trigger] parts[i],
            ) != #[trigger] ("rf_session="@ + token) by {
                if text::trimmed(parts[i]) == "rf_session="@ + token {
                    assert("rf_session"@ + seq!['='] + token =~= "rf_session="@ + token);
                    text::lemma_cut("rf_session"@, '=', token);
                    assert(token_in_part(parts[i]) is Some);
                }
            }
        }
    }
}

proof fn lemma_first_token_place(parts: Seq<Seq<char>>)
    ensures
        first_token(parts) matches Some(token) ==> exists|i: int|
            0 <= i < parts.len() && token_in_part(#[trigger] parts[i]) == Some(token),
        first_token(parts) is None ==> forall|i: int|
            0 <= i < parts.len() ==> token_in_part(#[trigger] parts[i]) is None,
    decreases parts.len(),
{
    if parts.len() > 0 && token_in_part(parts[0]) is None {
        let rest = parts.drop_first();
        lemma_first_token_place(rest);
        if let Some(token) = first_token(rest) {
            let i = choose|i: int|
                0 <= i < rest.len() && token_in_part(#[trigger] rest[i]) == Some(token);
            assert(parts[i + 1] == rest[i]);
        } else {
            assert forall|i: int| 0 <= i < parts.len() implies token_in_part(
                #[trigger] parts[i],
            ) is None by {
                if i > 0 {
                    assert(rest[i - 1] == parts[i]);
                }
            }
        }
    }
}

/// A name and a password are found only where the authorization header is
/// `Basic` and the base64 text of the two with a `:` between them.
pub proof fn lemma_credentials_were_sent(headers: HeadersModel)
    ensures
        credentials_of(headers) matches Some((username, password)) ==> {
            &&& !username.contains(':')
            &&& header_text(headers.authorization) == Some(
                "Basic "@ + secrets::base64_text(
                    encode_utf8(username + seq![':'] + password),
                    false,
                    true,
                ),
            )
        },
{
    if let Some((username, password)) = credentials_of(headers) {
        let value = header_text(headers.authorization)->0;
        reveal_strlit("Basic ");
        let encoded = value.skip(6);
        assert(value =~= "Basic "@ + encoded);
        let bytes = secrets::base64_bytes(encoded)->0;
        secrets::lemma_base64_bytes_text(encoded);
        decode_utf8_encode_utf8(bytes);
        text::lemma_cut_parts(decode_utf8(bytes), ':');
    }
}

/// The address of a client is the first of those that the request was forwarded
/// for, without the white space around it. Where that is missing, it is the one
/// that a proxy names.
pub proof fn lemma_address(headers: HeadersModel, first: Seq<char>, rest: Seq<char>)
    requires
        !first.contains(','),
    ensures
        header_text(headers.forwarded_for) == Some(first + seq![','] + rest) || header_text(
            headers.forwarded_for,
        ) == Some(first) ==> address_of(headers) == (if text::trimmed(first).len() > 0 {
            Some(text::trimmed(first))
        } else {
            header_text(headers.real_ip)
        }),
        header_text(headers.forwarded_for) is None ==> address_of(headers) == header_text(
            headers.real_ip,
        ),
{
    text::lemma_pieces_concat(first, ',', rest);
    text::lemma_pieces_single(first, ',');
    assert((seq![first] + text::pieces(rest, ','))[0] == first);
}

} // verus!
