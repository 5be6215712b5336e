//! The cryptographic library's accounts, channels and group channels, as far as
//! devices use them. Keys are drawn at random, and accounts and channels keep
//! their state to themselves: what is said here is which state a result depends
//! on, and what one call gives back of another.

use vodozemac::megolm::{
    GroupSession, InboundGroupSession, MegolmMessage, SessionConfig as MegolmConfig, SessionKey,
};
use vodozemac::olm::{
    Account, AccountPickle, OlmMessage, PreKeyMessage, Session, SessionConfig as OlmConfig,
};
use vodozemac::Curve25519PublicKey;
use vstd::multiset::Multiset;
use vstd::prelude::*;

use crate::text::strs;

verus! {

/// `vodozemac::olm::Account`: the keys of one device.
#[verifier::external_type_specification]
#[verifier::external_body]
pub struct ExAccount(Account);

/// `vodozemac::olm::Session`: an encrypted channel between two devices.
#[verifier::external_type_specification]
#[verifier::external_body]
pub struct ExSession(Session);

/// `vodozemac::megolm::GroupSession`: the sending side of a group channel.
#[verifier::external_type_specification]
#[verifier::external_body]
pub struct ExGroupSession(GroupSession);

/// How many one-time keys an account stores before it discards the oldest.
pub open spec fn key_room() -> nat {
    5000
}

/// The public identity key of an account, as text.
pub uninterp spec fn identity_of(a: Account) -> Seq<char>;

/// The one-time keys of an account that are not published yet, as texts.
pub uninterp spec fn unpublished(a: Account) -> Multiset<Seq<char>>;

/// How many one-time keys an account stores, published or not.
pub uninterp spec fn stored(a: Account) -> nat;

/// The one-time keys of which an account finds the private part, each as the one
/// text that `Curve25519PublicKey::to_base64` gives for it.
pub uninterp spec fn finds(a: Account) -> Set<Seq<char>>;

/// Whether an account is in order: each one-time key lies under an id of its
/// own, the ids that come next are unused, and there is no fallback key. Every
/// account made here is; one that was read from a text need not be.
pub uninterp spec fn in_order(a: Account) -> bool;

/// What an account holds, as far as it is told apart here.
pub struct AccountView {
    /// The public identity key.
    pub identity: Seq<char>,
    /// The one-time keys that are not published yet.
    pub unpublished: Multiset<Seq<char>>,
    /// How many one-time keys are stored.
    pub stored: nat,
    /// The one-time keys of which the private part is found.
    pub finds: Set<Seq<char>>,
    /// Whether the account is in order.
    pub in_order: bool,
}

/// What an account holds.
pub open spec fn account_view(a: Account) -> AccountView {
    AccountView {
        identity: identity_of(a),
        unpublished: unpublished(a),
        stored: stored(a),
        finds: finds(a),
        in_order: in_order(a),
    }
}

/// The bytes of a public key in text form, or why the text is none.
pub uninterp spec fn key_parsed(text: Seq<char>) -> Result<Seq<u8>, Seq<char>>;

/// Why no channel can be opened to the holder of two keys, if none can.
pub uninterp spec fn outbound_error(identity: Seq<u8>, one_time: Seq<u8>) -> Option<Seq<char>>;

/// What an account decrypts of a first message, whose sender is said to have an
/// identity key, or why it does not.
pub uninterp spec fn first_opened(a: Account, identity: Seq<u8>, bytes: Seq<u8>) -> Result<
    Seq<u8>,
    Seq<char>,
>;

/// The identity key and the one-time key that a channel was opened to, as long
/// as nothing was sent or received on it.
pub uninterp spec fn opened_to(s: Session) -> Option<(Seq<u8>, Seq<u8>)>;

/// The identity key of the side that opened a channel.
pub uninterp spec fn opened_by(s: Session) -> Seq<u8>;

/// Whether an account has an identity key and the private part of a one-time
/// key.
pub open spec fn answers(a: Account, identity: Seq<u8>, one_time: Seq<u8>) -> bool {
    &&& key_parsed(identity_of(a)) == Ok::<Seq<u8>, Seq<char>>(identity)
    &&& exists|t: Seq<char>| #[trigger]
        finds(a).contains(t) && key_parsed(t) == Ok::<Seq<u8>, Seq<char>>(one_time)
}

/// Whether a channel has decrypted a message of the other side.
pub uninterp spec fn has_received(s: Session) -> bool;

/// Whether a channel can be written to: one side cannot answer a message whose
/// ratchet key is of low order.
pub uninterp spec fn can_send(s: Session) -> bool;

/// Why a channel that cannot be written to refuses.
pub open spec fn low_order_refusal() -> Seq<char> {
    "One or more keys lacked contributory behavior in the Diffie-Hellman operation, resulting in an insecure shared secret"@
}

/// Whether a first message can be answered: its ratchet key is not of low order.
pub uninterp spec fn answerable(bytes: Seq<u8>) -> bool;

/// Whether the state of a channel settles what becomes of a message: the bytes
/// are no message, or it belongs to a chain of messages that the channel has
/// begun to receive, or the channel has sent since it last began to receive one.
/// In every other state the channel draws new keys before it tries the message.
pub uninterp spec fn settled(s: Session, message_type: usize, bytes: Seq<u8>) -> bool;

/// Why bytes are no message of a type, if they are none.
pub uninterp spec fn olm_error(message_type: usize, bytes: Seq<u8>) -> Option<Seq<char>>;

/// What a channel whose state settles it decrypts of a message, or why it does
/// not.
pub uninterp spec fn olm_opened(s: Session, message_type: usize, bytes: Seq<u8>) -> Result<
    Seq<u8>,
    Seq<char>,
>;

/// The id of a group channel.
pub uninterp spec fn group_id_of(g: GroupSession) -> Seq<char>;

/// How many messages were sent on a group channel.
pub uninterp spec fn index_of(g: GroupSession) -> u32;

/// Whether a text is a session key of a group channel at its present index or
/// an earlier one.
pub uninterp spec fn covers(key: Seq<char>, g: GroupSession) -> bool;

/// Why a text is no group session key, if it is none.
pub uninterp spec fn session_key_error(text: Seq<char>) -> Option<Seq<char>>;

/// Why bytes are no group message, if they are none.
pub uninterp spec fn megolm_error(bytes: Seq<u8>) -> Option<Seq<char>>;

/// What the holder of a group session key decrypts of a group message, or why
/// it does not.
pub uninterp spec fn group_opened(key: Seq<char>, bytes: Seq<u8>) -> Result<Seq<u8>, Seq<char>>;

/// The account that a text holds encrypted under a key, or why it holds none.
pub uninterp spec fn unpickled(text: Seq<char>, key: Seq<u8>) -> Result<AccountView, Seq<char>>;

/// What a result of bytes holds.
pub open spec fn bytes_or_text(r: Result<Vec<u8>, String>) -> Result<Seq<u8>, Seq<char>> {
    match r {
        Ok(v) => Ok(v@),
        Err(e) => Err(e@),
    }
}

/// What a result of an account holds.
pub open spec fn account_or_text(r: Result<Account, String>) -> Result<AccountView, Seq<char>> {
    match r {
        Ok(a) => Ok(account_view(a)),
        Err(e) => Err(e@),
    }
}

/// `Account::new` makes an account with new random keys and no one-time keys.
#[verifier::external_body]
pub(crate) fn account_new() -> (a: Account)
    ensures
        unpublished(a) == Multiset::<Seq<char>>::empty(),
        stored(a) == 0,
        finds(a) == Set::<Seq<char>>::empty(),
        in_order(a),
{
    Account::new()
}

/// `Account::curve25519_key` gives the public identity key, here as the text
/// that `Curve25519PublicKey::from_base64` reads back.
#[verifier::external_body]
pub(crate) fn account_identity(a: &Account) -> (s: String)
    ensures
        s@ == identity_of(*a),
        key_parsed(s@) is Ok,
{
    a.curve25519_key().to_base64()
}

/// `Curve25519PublicKey::from_base64` reads a key, here as its bytes; what it
/// reads, and the error where it cannot, depend on the text alone.
#[verifier::external_body]
pub(crate) fn key_from_text(text: &str) -> (r: Result<[u8; 32], String>)
    ensures
        match r {
            Ok(k) => key_parsed(text@) == Ok::<Seq<u8>, Seq<char>>(k@),
            Err(e) => key_parsed(text@) == Err::<Seq<u8>, Seq<char>>(e@),
        },
{
    Curve25519PublicKey::from_base64(text).map(|k| k.to_bytes()).map_err(|e| e.to_string())
}

/// `Account::generate_one_time_keys` adds `count` new random one-time keys,
/// which are not published yet, and keeps their private parts. As long as there
/// is room, an account that is in order discards none and stays in order.
#[verifier::external_body]
pub(crate) fn account_generate(a: &mut Account, count: usize) -> (created: Vec<String>)
    ensures
        created@.len() == count,
        identity_of(*final(a)) == identity_of(*old(a)),
        in_order(*old(a)) && stored(*old(a)) + count <= key_room() ==> {
            &&& in_order(*final(a))
            &&& unpublished(*final(a)) == unpublished(*old(a)).add(strs(created@).to_multiset())
            &&& stored(*final(a)) == stored(*old(a)) + count
            &&& finds(*final(a)) == finds(*old(a)).union(strs(created@).to_set())
        },
{
    a.generate_one_time_keys(count).created.iter().map(|k| k.to_base64()).collect()
}

/// `Account::one_time_keys` gives the one-time keys that are not published yet,
/// in no particular order; each here as the text that
/// `Curve25519PublicKey::from_base64` reads back.
#[verifier::external_body]
pub(crate) fn account_unpublished(a: &Account) -> (v: Vec<String>)
    ensures
        strs(v@).to_multiset() == unpublished(*a),
        forall|i: int| 0 <= i < v@.len() ==> key_parsed((#[trigger] v@[i])@) is Ok,
{
    a.one_time_keys().values().map(|k| k.to_base64()).collect()
}

/// `Account::mark_keys_as_published` marks all one-time keys as published; they
/// stay in store.
#[verifier::external_body]
pub(crate) fn account_mark_published(a: &mut Account)
    ensures
        identity_of(*final(a)) == identity_of(*old(a)),
        unpublished(*final(a)) == Multiset::<Seq<char>>::empty(),
        stored(*final(a)) == stored(*old(a)),
        finds(*final(a)) == finds(*old(a)),
        in_order(*final(a)) == in_order(*old(a)),
{
    a.mark_keys_as_published();
}

/// `Account::create_outbound_session` opens a channel to the holder of two
/// keys. It draws a random key; whether it refuses depends on the two keys
/// alone, of which none may be of low order. Nothing has been received on the
/// channel yet, and it can be written to.
#[verifier::external_body]
pub(crate) fn account_outbound(a: &Account, identity: [u8; 32], one_time: [u8; 32]) -> (r: Result<
    Session,
    String,
>)
    ensures
        match r {
            Ok(s) => {
                &&& outbound_error(identity@, one_time@) is None
                &&& !has_received(s)
                &&& can_send(s)
                &&& forall|t: usize, b: Seq<u8>| #[trigger] settled(s, t, b)
                &&& opened_to(s) == Some((identity@, one_time@))
                &&& key_parsed(identity_of(*a)) == Ok::<Seq<u8>, Seq<char>>(opened_by(s))
            },
            Err(e) => outbound_error(identity@, one_time@) == Some(e@),
        },
{
    let identity = Curve25519PublicKey::from_bytes(identity);
    let one_time = Curve25519PublicKey::from_bytes(one_time);
    a.create_outbound_session(OlmConfig::version_1(), identity, one_time).map_err(|e| e.to_string())
}

/// `Account::create_inbound_session` opens a channel from its first message and
/// decrypts that, which uses a one-time key up. What it decrypts, and the error
/// where it cannot, depend on the account, the sender's identity key and the
/// message; after an error the account is as it was. The message belongs to a
/// chain that the channel has begun to receive, and cannot be decrypted again,
/// since the key of a message is dropped with its use. Whether the channel can
/// be written to depends on the message alone.
#[verifier::external_body]
pub(crate) fn account_inbound(a: &mut Account, identity: [u8; 32], bytes: &[u8]) -> (r: Result<
    (Session, Vec<u8>),
    String,
>)
    ensures
        identity_of(*final(a)) == identity_of(*old(a)),
        match r {
            Ok((s, plaintext)) => {
                &&& first_opened(*old(a), identity@, bytes@) == Ok::<Seq<u8>, Seq<char>>(plaintext@)
                &&& has_received(s)
                &&& opened_to(s) is None
                &&& can_send(s) == answerable(bytes@)
                &&& settled(s, 0, bytes@)
                &&& olm_opened(s, 0, bytes@) is Err
                &&& in_order(*old(a)) ==> {
                    &&& in_order(*final(a))
                    &&& stored(*final(a)) + 1 == stored(*old(a))
                    &&& unpublished(*final(a)).subset_of(unpublished(*old(a)))
                    &&& exists|used: Seq<char>| #[trigger]
                        finds(*old(a)).contains(used) && finds(*final(a)) == finds(*old(a)).remove(
                            used,
                        )
                }
            },
            Err(e) => {
                &&& first_opened(*old(a), identity@, bytes@) == Err::<Seq<u8>, Seq<char>>(e@)
                &&& *final(a) == *old(a)
            },
        },
{
    let identity = Curve25519PublicKey::from_bytes(identity);
    let message = PreKeyMessage::from_bytes(bytes).map_err(|e| e.to_string())?;
    a.create_inbound_session(OlmConfig::version_1(), identity, &message)
        .map(|c| (c.session, c.plaintext))
        .map_err(|e| e.to_string())
}

/// `Session::encrypt` encrypts with the state of the channel; here with
/// `OlmMessage::to_parts`, which gives the type and the bytes. It succeeds
/// exactly on a channel that can be written to, which stays so; on any other it
/// refuses with the one error that there is. A channel on which nothing was sent
/// or received can be written to. The type is one once something was
/// received, and zero before; a first message can be answered. The bytes are such that `OlmMessage::from_parts`
/// reads them back, and some channel, that of the other side, decrypts them to
/// the plaintext. The first message on a channel is decrypted by every account
/// that has the keys which the channel was opened to. Having sent, the channel
/// settles what becomes of any message. Nothing is said of which channel
/// decrypts the messages that follow: with each answer both sides draw new keys
/// at random.
#[verifier::external_body]
pub(crate) fn session_encrypt(s: &mut Session, plaintext: &[u8]) -> (r: Result<
    (usize, Vec<u8>),
    String,
>)
    ensures
        has_received(*final(s)) == has_received(*old(s)),
        opened_by(*final(s)) == opened_by(*old(s)),
        r is Ok <==> can_send(*old(s)),
        opened_to(*old(s)) is Some ==> r is Ok,
        r is Ok ==> can_send(*final(s)),
        r is Ok ==> forall|t: usize, b: Seq<u8>| #[trigger] settled(*final(s), t, b),
        r matches Ok(m) ==> {
            &&& m.0 == (if has_received(*old(s)) {
                1usize
            } else {
                0usize
            })
            &&& olm_error(m.0, (m.1)@) is None
            &&& m.0 == 0 ==> answerable((m.1)@)
            &&& exists|t: Session|
                settled(t, m.0, (m.1)@) && #[trigger] olm_opened(t, m.0, (m.1)@) == Ok::<
                    Seq<u8>,
                    Seq<char>,
                >(plaintext@)
            &&& opened_to(*final(s)) is None
            &&& opened_to(*old(s)) matches Some(keys) ==> {
                &&& m.0 == 0
                &&& forall|b: Account|
                    #![trigger first_opened(b, opened_by(*old(s)), (m.1)@)]
                    answers(b, keys.0, keys.1) ==> first_opened(b, opened_by(*old(s)), (m.1)@)
                        == Ok::<Seq<u8>, Seq<char>>(plaintext@)
            }
        },
        r matches Err(e) ==> e@ == low_order_refusal(),
        r is Err ==> *final(s) == *old(s),
{
    s.encrypt(plaintext).map(|m| m.to_parts()).map_err(|e| e.to_string())
}

/// `OlmMessage::from_parts` reads a message; whether it can, and the error where
/// it cannot, depend on the type and the bytes alone. There are no other types
/// than zero and one.
#[verifier::external_body]
pub(crate) fn olm_check(message_type: usize, bytes: &[u8]) -> (r: Result<(), String>)
    ensures
        r is Ok <==> olm_error(message_type, bytes@) is None,
        r matches Err(e) ==> olm_error(message_type, bytes@) == Some(e@),
        message_type > 1 ==> r is Err,
{
    OlmMessage::from_parts(message_type, bytes).map(|_m| ()).map_err(|e| e.to_string())
}

/// `Session::decrypt` decrypts with the state of the channel; here of a message
/// that `OlmMessage::from_parts` reads. Where the state of the channel settles
/// it, what is decrypted, and the error where that fails, depend on the channel
/// and the message, and after an error the channel is as it was. Where it does
/// not, keys are drawn at random first: nothing is said of what is decrypted,
/// and after an error the channel may have kept the new keys. Whether the
/// channel can be written to, what was received on it and who opened it do not
/// change with an error.
#[verifier::external_body]
pub(crate) fn session_decrypt(s: &mut Session, message_type: usize, bytes: &[u8]) -> (r: Result<
    Vec<u8>,
    String,
>)
    ensures
        opened_by(*final(s)) == opened_by(*old(s)),
        settled(*old(s), message_type, bytes@) ==> bytes_or_text(r) == olm_opened(
            *old(s),
            message_type,
            bytes@,
        ),
        settled(*old(s), message_type, bytes@) && r is Err ==> *final(s) == *old(s),
        r is Ok ==> has_received(*final(s)),
        r is Ok ==> opened_to(*final(s)) is None,
        r is Ok && can_send(*old(s)) ==> can_send(*final(s)),
        r is Err ==> has_received(*final(s)) == has_received(*old(s)),
        r is Err ==> opened_to(*final(s)) == opened_to(*old(s)),
        r is Err ==> can_send(*final(s)) == can_send(*old(s)),
{
    let message = OlmMessage::from_parts(message_type, bytes).map_err(|e| e.to_string())?;
    s.decrypt(&message).map_err(|e| e.to_string())
}

/// `GroupSession::new` makes a sending side with random keys on which nothing
/// was sent.
#[verifier::external_body]
pub(crate) fn group_new() -> (g: GroupSession)
    ensures
        index_of(g) == 0,
{
    GroupSession::new(MegolmConfig::version_1())
}

/// `GroupSession::session_id` gives the id of the channel.
#[verifier::external_body]
pub(crate) fn group_session_id(g: &GroupSession) -> (s: String)
    ensures
        s@ == group_id_of(*g),
{
    g.session_id()
}

/// `GroupSession::message_index` gives the number of messages sent.
#[verifier::external_body]
pub(crate) fn group_index(g: &GroupSession) -> (n: u32)
    ensures
        n == index_of(*g),
{
    g.message_index()
}

/// `GroupSession::session_key` gives the session key at the present index, here
/// as the text that `SessionKey::from_base64` reads back.
#[verifier::external_body]
pub(crate) fn group_session_key(g: &GroupSession) -> (s: String)
    ensures
        session_key_error(s@) is None,
        covers(s@, *g),
{
    g.session_key().to_base64()
}

/// `GroupSession::encrypt` encrypts with the state of the channel; here with
/// `MegolmMessage::to_bytes`, whose bytes `MegolmMessage::from_bytes` reads back.
/// Whoever holds a session key of the channel from this index or an earlier one
/// decrypts them to the plaintext, and goes on holding one for what follows.
#[verifier::external_body]
pub(crate) fn group_encrypt(g: &mut GroupSession, plaintext: &[u8]) -> (v: Vec<u8>)
    requires
        index_of(*old(g)) < u32::MAX,
    ensures
        group_id_of(*final(g)) == group_id_of(*old(g)),
        index_of(*final(g)) == index_of(*old(g)) + 1,
        megolm_error(v@) is None,
        forall|key: Seq<char>| #[trigger]
            covers(key, *old(g)) ==> covers(key, *final(g)) && (group_opened(
                key,
                v@,
            ) matches Ok(p) && p == plaintext@),
{
    g.encrypt(plaintext).to_bytes()
}

/// `SessionKey::from_base64` reads a group session key; whether it can, and the
/// error where it cannot, depend on the text alone.
#[verifier::external_body]
pub(crate) fn session_key_check(text: &str) -> (r: Result<(), String>)
    ensures
        r is Ok <==> session_key_error(text@) is None,
        r matches Err(e) ==> session_key_error(text@) == Some(e@),
{
    SessionKey::from_base64(text).map(|_k| ()).map_err(|e| e.to_string())
}

/// `MegolmMessage::from_bytes` reads a group message; whether it can, and the
/// error where it cannot, depend on the bytes alone.
#[verifier::external_body]
pub(crate) fn megolm_check(bytes: &[u8]) -> (r: Result<(), String>)
    ensures
        r is Ok <==> megolm_error(bytes@) is None,
        r matches Err(e) ==> megolm_error(bytes@) == Some(e@),
{
    MegolmMessage::from_bytes(bytes).map(|_m| ()).map_err(|e| e.to_string())
}

/// `InboundGroupSession::decrypt` decrypts a group message; here with
/// `InboundGroupSession::new`, which makes the receiving side of a session key.
/// What it decrypts, and the error where it cannot, depend on the session key
/// and the message.
#[verifier::external_body]
pub(crate) fn group_decrypt(key: &str, bytes: &[u8]) -> (r: Result<Vec<u8>, String>)
    ensures
        bytes_or_text(r) == group_opened(key@, bytes@),
{
    let key = SessionKey::from_base64(key).map_err(|e| e.to_string())?;
    let message = MegolmMessage::from_bytes(bytes).map_err(|e| e.to_string())?;
    let mut receiver = InboundGroupSession::new(&key, MegolmConfig::version_1());
    receiver.decrypt(&message).map(|d| d.plaintext).map_err(|e| e.to_string())
}

/// `Account::pickle` and `AccountPickle::encrypt` give a text from which
/// `AccountPickle::from_encrypted` reads the account back under the same key:
/// its identity key, and all that it holds if it is in order.
#[verifier::external_body]
pub(crate) fn account_pickle(a: &Account, key: &[u8; 32]) -> (s: String)
    ensures
        match unpickled(s@, key@) {
            Ok(v) => v.identity == identity_of(*a),
            Err(_) => false,
        },
        in_order(*a) ==> unpickled(s@, key@) == account_or_text(Ok(*a)),
{
    a.pickle().encrypt(key)
}

/// `AccountPickle::from_encrypted` and `Account::from_pickle` read an account
/// back; what it holds, and the error where they cannot, depend on the text and
/// the key alone.
#[verifier::external_body]
pub(crate) fn account_unpickle(text: &str, key: &[u8; 32]) -> (r: Result<Account, String>)
    ensures
        account_or_text(r) == unpickled(text@, key@),
{
    AccountPickle::from_encrypted(text, key).map(Account::from_pickle).map_err(|e| e.to_string())
}

} // verus!
