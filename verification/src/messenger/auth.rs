//! Authentication for the messenger gateway.

use crate::text::{concat3, hex_encode, hex_text};
use hmac::{Hmac, Mac};
use sha2::Sha256;
use vstd::prelude::*;
use vstd::utf8::{encode_utf8, is_ascii_chars, is_ascii_chars_encode_utf8};

verus! {

/// Verifies login credentials. How an implementation judges is its own affair:
/// nothing is promised of the answer here.
pub trait Authenticator {
    /// Returns `true` when `token` is valid for the user and device.
    fn verify(&self, user_id: &str, device_id: &str, token: &str) -> (r: bool);
}

/// The HMAC-SHA256 tag of a message under a key.
pub uninterp spec fn hmac_sha256(key: Seq<u8>, message: Seq<u8>) -> Seq<u8>;

/// `Hmac::<Sha256>`: keyed with `key` (any length is accepted), fed `message`
/// and finalized, gives the tag.
#[verifier::external_body]
fn hmac_tag(key: &[u8], message: &[u8]) -> (tag: [u8; 32])
    ensures
        tag@ == hmac_sha256(key@, message@),
{
    let mut mac = Hmac::<Sha256>::new_from_slice(key).expect("hmac accepts any key len");
    mac.update(message);
    mac.finalize().into_bytes().into()
}

/// `Mac::verify_slice` accepts exactly the tag that the message has under the
/// key, and takes the same time whatever the tag holds.
#[verifier::external_body]
fn hmac_verify(key: &[u8], message: &[u8], tag: &[u8]) -> (r: bool)
    ensures
        r == (tag@ == hmac_sha256(key@, message@)),
{
    let mut mac = Hmac::<Sha256>::new_from_slice(key).expect("hmac accepts any key len");
    mac.update(message);
    mac.verify_slice(tag).is_ok()
}

/// The value of a hexadecimal digit in ASCII.
pub open spec fn hex_value(b: u8) -> Option<u8> {
    if 48 <= b <= 57 {
        Some((b - 48) as u8)
    } else if 97 <= b <= 102 {
        Some((b - 87) as u8)
    } else if 65 <= b <= 70 {
        Some((b - 55) as u8)
    } else {
        None
    }
}

/// The byte that two hexadecimal digits stand for.
pub open spec fn pair_value(a: u8, b: u8) -> Option<u8> {
    match (hex_value(a), hex_value(b)) {
        (Some(high), Some(low)) => Some((16 * high + low) as u8),
        _ => None,
    }
}

/// Whether hexadecimal text stands for bytes.
pub open spec fn is_hex(text: Seq<u8>) -> bool {
    &&& text.len() % 2 == 0
    &&& forall|i: int|
        0 <= i < text.len() / 2 ==> #[trigger] pair_value(text[2 * i], text[2 * i + 1]) is Some
}

/// The bytes that hexadecimal text stands for.
pub open spec fn hex_bytes(text: Seq<u8>) -> Seq<u8> {
    Seq::new(text.len() / 2, |i: int| pair_value(text[2 * i], text[2 * i + 1])->0)
}

/// The value of a hexadecimal digit.
fn digit_value(b: u8) -> (r: Option<u8>)
    ensures
        r == hex_value(b),
        r matches Some(d) ==> d < 16,
{
    if 48 <= b && b <= 57 {
        Some(b - 48)
    } else if 97 <= b && b <= 102 {
        Some(b - 87)
    } else if 65 <= b && b <= 70 {
        Some(b - 55)
    } else {
        None
    }
}

/// The bytes that hexadecimal text stands for, if it does for any.
pub fn hex_decode(s: &str) -> (r: Option<Vec<u8>>)
    ensures
        match r {
            Some(v) => is_hex(encode_utf8(s@)) && v@ == hex_bytes(encode_utf8(s@)),
            None => !is_hex(encode_utf8(s@)),
        },
{
    let text = s.as_bytes();
    let ghost t = encode_utf8(s@);
    let n: usize = text.len();
    if n % 2 != 0 {
        return None;
    }
    let mut out: Vec<u8> = Vec::new();
    let mut i: usize = 0;
    while i < n
        invariant
            text@ == t,
            t == encode_utf8(s@),
            n == t.len(),
            n % 2 == 0,
            i <= n,
            i % 2 == 0,
            out@.len() == i / 2,
            forall|j: int|
                0 <= j < i / 2 ==> #[trigger] pair_value(t[2 * j], t[2 * j + 1]) == Some(out@[j]),
        decreases n - i,
    {
        let ghost k = i as int / 2;
        assert(t[2 * k] == t[i as int] && t[2 * k + 1] == t[i as int + 1]);
        let low: u8 = match digit_value(text[i + 1]) {
            Some(d) => d,
            None => {
                assert(pair_value(t[2 * k], t[2 * k + 1]) is None);
                return None;
            },
        };
        match digit_value(text[i]) {
            Some(high) => {
                out.push(16 * high + low);
            },
            None => {
                assert(pair_value(t[2 * k], t[2 * k + 1]) is None);
                return None;
            },
        }
        i += 2;
    }
    assert(out@ =~= hex_bytes(t));
    Some(out)
}

/// Hexadecimal text stands for the bytes that it was made of.
pub proof fn law_hex_round_trip(bytes: Seq<u8>)
    ensures
        is_hex(encode_utf8(hex_text(bytes))),
        hex_bytes(encode_utf8(hex_text(bytes))) == bytes,
{
    let chars = hex_text(bytes);
    assert forall|i: int| 0 <= i < chars.len() implies ('\0' <= #[trigger] chars[i] <= '\u{7f}')
        && hex_value(chars[i] as u8) == Some(
        (if i % 2 == 0 {
            bytes[i / 2] / 16
        } else {
            bytes[i / 2] % 16
        }) as u8,
    ) by {
        assert(0 <= i / 2 < bytes.len());
    }
    assert(is_ascii_chars(chars));
    is_ascii_chars_encode_utf8(chars);
    let t = encode_utf8(chars);
    assert(t.len() == chars.len());
    assert forall|i: int| 0 <= i < bytes.len() implies #[trigger] pair_value(
        t[2 * i],
        t[2 * i + 1],
    ) == Some(bytes[i]) by {
        assert(t[2 * i] == chars[2 * i] as u8);
        assert(t[2 * i + 1] == chars[2 * i + 1] as u8);
    }
    assert(hex_bytes(t) =~= bytes);
}

/// HMAC-SHA256 token authenticator. A token is the hexadecimal text of the tag
/// of `user_id:device_id` under the shared secret.
pub struct HmacAuthenticator {
    pub secret: Vec<u8>,
}

impl Clone for HmacAuthenticator {
    fn clone(&self) -> (r: Self)
        ensures
            r.secret@ == self.secret@,
    {
        HmacAuthenticator { secret: crate::messenger::wire::clone_bytes(&self.secret) }
    }
}

/// Whether a text holds lower-case hexadecimal digits only.
pub open spec fn lower_hex(text: Seq<char>) -> bool {
    forall|i: int|
        0 <= i < text.len() ==> ('0' <= #[trigger] text[i] <= '9' || 'a' <= text[i] <= 'f')
}

/// What a token is computed over.
pub open spec fn token_message(user_id: Seq<char>, device_id: Seq<char>) -> Seq<u8> {
    encode_utf8(user_id + ":"@ + device_id)
}

/// The tag of a user and device under a secret.
pub open spec fn token_tag(secret: Seq<u8>, user_id: Seq<char>, device_id: Seq<char>) -> Seq<u8> {
    hmac_sha256(secret, token_message(user_id, device_id))
}

/// Whether a token is valid for a user and device under a secret.
pub open spec fn token_valid(
    secret: Seq<u8>,
    user_id: Seq<char>,
    device_id: Seq<char>,
    token: Seq<char>,
) -> bool {
    &&& is_hex(encode_utf8(token))
    &&& hex_bytes(encode_utf8(token)) == token_tag(secret, user_id, device_id)
}

impl HmacAuthenticator {
    /// An authenticator with a shared secret.
    pub fn new(secret: &[u8]) -> (a: Self)
        ensures
            a.secret@ == secret@,
    {
        let mut copy: Vec<u8> = Vec::new();
        copy.extend_from_slice(secret);
        assert(copy@ =~= secret@);
        HmacAuthenticator { secret: copy }
    }

    /// Mints the token of a user and device.
    pub fn mint_token(&self, user_id: &str, device_id: &str) -> (s: String)
        ensures
            s@ == hex_text(token_tag(self.secret@, user_id@, device_id@)),
            s@.len() == 64,
            lower_hex(s@),
            token_valid(self.secret@, user_id@, device_id@, s@),
    {
        let message = concat3(user_id, ":", device_id);
        let tag = hmac_tag(self.secret.as_slice(), message.as_str().as_bytes());
        proof {
            law_minted_token_is_valid(self.secret@, user_id@, device_id@);
        }
        hex_encode(tag.as_slice())
    }
}

impl Authenticator for HmacAuthenticator {
    fn verify(&self, user_id: &str, device_id: &str, token: &str) -> (r: bool)
        ensures
            r == token_valid(self.secret@, user_id@, device_id@, token@),
    {
        let tag = match hex_decode(token) {
            Some(t) => t,
            None => {
                return false;
            },
        };
        let message = concat3(user_id, ":", device_id);
        hmac_verify(self.secret.as_slice(), message.as_str().as_bytes(), tag.as_slice())
    }
}

/// A minted token is valid for the user and device it was minted for, and
/// holds lower-case hexadecimal digits only.
pub proof fn law_minted_token_is_valid(
    secret: Seq<u8>,
    user_id: Seq<char>,
    device_id: Seq<char>,
)
    ensures
        lower_hex(hex_text(token_tag(secret, user_id, device_id))),
        token_valid(
            secret,
            user_id,
            device_id,
            hex_text(token_tag(secret, user_id, device_id)),
        ),
{
    law_hex_round_trip(token_tag(secret, user_id, device_id));
}

/// Only the secret and the joined text of user and device matter: where a colon
/// may stand on either side of the joint, the token is the same.
pub proof fn law_token_is_of_the_joined_text(
    secret: Seq<u8>,
    user_id: Seq<char>,
    middle: Seq<char>,
    device_id: Seq<char>,
)
    ensures
        token_message(user_id + ":"@ + middle, device_id) == token_message(
            user_id,
            middle + ":"@ + device_id,
        ),
        token_tag(secret, user_id + ":"@ + middle, device_id) == token_tag(
            secret,
            user_id,
            middle + ":"@ + device_id,
        ),
{
    assert((user_id + ":"@ + middle) + ":"@ + device_id =~= user_id + ":"@ + (middle + ":"@
        + device_id));
}

/// A token is valid for two pairs of user and device, or under two secrets,
/// only where their tags are equal.
pub proof fn law_token_is_bound_to_its_tag(
    s1: Seq<u8>,
    u1: Seq<char>,
    d1: Seq<char>,
    s2: Seq<u8>,
    u2: Seq<char>,
    d2: Seq<char>,
    token: Seq<char>,
)
    requires
        token_valid(s1, u1, d1, token),
    ensures
        token_valid(s2, u2, d2, token) <==> token_tag(s1, u1, d1) == token_tag(s2, u2, d2),
{
}

} // verus!
