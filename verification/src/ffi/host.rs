//! Helpers for hosts: events of a login, retries, lists of contacts, and
//! exported keys.

use crate::ffi::error::{FfiError, FfiErrorCode};
use crate::ffi::events::{
    event_of, packet_to_event, KeyBundleInfo, LaneEvent, LaneEventView, LoginAckEvent, LoginAckEventView,
    SyncCompleteEvent, SyncCompleteEventView,
};
use crate::messenger::client::LoginOutcome;
use crate::messenger::codec::PacketView;
use crate::messenger::digest::{sha256_of, sha256_bytes};
use crate::messenger::e2ee::{
    bundle_keys, bundle_refusal, first_for, law_same_keys_answer_alike, seals, E2eeDevice,
    PeerKeyBundle,
};
use crate::messenger::error::E2eeError;
use crate::messenger::inbox::packet_views;
use crate::messenger::olm::{low_order_refusal, unpickled};
use crate::messenger::wire::EncryptedPayload;
use crate::text::{chars_of, string_of, strs, text_from_utf8};
use crate::time::Duration;
use vstd::prelude::*;
use vstd::utf8::{decode_utf8, encode_utf8, valid_utf8};

verus! {

/// Whether a failed command is worth another attempt.
pub open spec fn worth_retrying(e: FfiError) -> bool {
    let c = e.code_of();
    c == FfiErrorCode::Timeout || c == FfiErrorCode::Closed || c == FfiErrorCode::Io
}

/// Whether a failed command is worth another attempt.
pub fn is_retryable(e: &FfiError) -> (r: bool)
    ensures
        r == worth_retrying(*e),
{
    let c = e.code();
    c == FfiErrorCode::Timeout || c == FfiErrorCode::Closed || c == FfiErrorCode::Io
}

/// Milliseconds before the next attempt: fifty, doubled with each attempt up to
/// six times.
pub open spec fn delay_after(attempt: u32) -> u64 {
    match attempt {
        0 => 50,
        1 => 100,
        2 => 200,
        3 => 400,
        4 => 800,
        5 => 1600,
        _ => 3200,
    }
}

/// Milliseconds to wait before the next attempt, if there is one. `attempt`
/// counts from zero; there is always a first attempt.
pub fn retry_after(attempt: u32, max_attempts: u32, e: &FfiError) -> (r: Option<u64>)
    ensures
        r == (if worth_retrying(*e) && attempt + 1 < max_attempts {
            Some(delay_after(attempt))
        } else {
            None
        }),
{
    if max_attempts == 0 || attempt >= max_attempts - 1 || !is_retryable(e) {
        return None;
    }
    Some(
        match attempt {
            0 => 50,
            1 => 100,
            2 => 200,
            3 => 400,
            4 => 800,
            5 => 1600,
            _ => 3200,
        },
    )
}

/// The interval between automatic pings; none where they are disabled.
pub fn ping_interval(secs: u64) -> (r: Option<Duration>)
    ensures
        secs == 0 ==> r is None,
        secs > 0 ==> r == Some(Duration { secs, nanos: 0 }),
{
    if secs == 0 {
        None
    } else {
        Some(Duration::from_secs(secs))
    }
}

/// The replayed packets as events.
pub open spec fn replayed_events(ps: Seq<PacketView>) -> Seq<LaneEventView>
    decreases ps.len(),
{
    if ps.len() == 0 {
        Seq::empty()
    } else {
        let rest = replayed_events(ps.drop_last());
        match event_of(ps.last()) {
            Some(e) => rest.push(LaneEventView::SyncMessage(Box::new(e))),
            None => rest,
        }
    }
}

/// The events that a login starts with: the answer, what was replayed, and the
/// end of the replay.
pub open spec fn opening_events(
    session_id: Seq<char>,
    replayed: Seq<PacketView>,
    latest_seq: u64,
) -> Seq<LaneEventView> {
    let count = (replayed.len() % 4_294_967_296) as u32;
    seq![
        LaneEventView::LoginAck(
            LoginAckEventView {
                session_id,
                pending_messages: count,
                ok: true,
                error: Seq::empty(),
            },
        ),
    ] + replayed_events(replayed) + seq![
        LaneEventView::SyncComplete(SyncCompleteEventView { delivered: count, latest_seq }),
    ]
}

/// The events by what they hold.
pub open spec fn models(v: Seq<LaneEvent>) -> Seq<LaneEventView> {
    Seq::new(v.len(), |i: int| v[i].model())
}

/// The events that a login starts with.
pub fn login_events(outcome: &LoginOutcome) -> (v: Vec<LaneEvent>)
    ensures
        models(v@) == opening_events(
            outcome.session_id@,
            packet_views(outcome.replayed@),
            outcome.latest_seq,
        ),
{
    let mut out: Vec<LaneEvent> = Vec::new();
    let count: u32 = (outcome.replayed.len() as u64 % 4_294_967_296) as u32;
    out.push(
        LaneEvent::LoginAck(
            LoginAckEvent {
                session_id: outcome.session_id.clone(),
                pending_messages: count,
                ok: true,
                error: String::new(),
            },
        ),
    );
    let ghost head = models(out@);
    let ghost all = packet_views(outcome.replayed@);
    let mut i: usize = 0;
    assert(all.take(0) =~= Seq::<PacketView>::empty());
    assert(models(out@) =~= head + replayed_events(all.take(0)));
    while i < outcome.replayed.len()
        invariant
            all == packet_views(outcome.replayed@),
            i <= all.len(),
            models(out@) == head + replayed_events(all.take(i as int)),
        decreases all.len() - i,
    {
        let ghost before = out@;
        proof {
            let t = all.take(i as int + 1);
            assert(t.drop_last() =~= all.take(i as int));
            assert(t.last() == outcome.replayed@[i as int]@);
        }
        match packet_to_event(&outcome.replayed[i]) {
            Some(e) => {
                let ghost ev = e.model();
                out.push(LaneEvent::SyncMessage(Box::new(e)));
                assert(models(out@) =~= models(before).push(
                    LaneEventView::SyncMessage(Box::new(ev)),
                ));
            },
            None => {},
        }
        assert(models(out@) =~= head + replayed_events(all.take(i as int + 1)));
        i += 1;
    }
    assert(all.take(i as int) =~= all);
    let ghost before = out@;
    out.push(
        LaneEvent::SyncComplete(
            SyncCompleteEvent { delivered: count, latest_seq: outcome.latest_seq },
        ),
    );
    assert(models(out@) =~= models(before).push(
        LaneEventView::SyncComplete(
            SyncCompleteEventView { delivered: count, latest_seq: outcome.latest_seq },
        ),
    ));
    assert(models(out@) =~= opening_events(outcome.session_id@, all, outcome.latest_seq));
    out
}

/// Whether a character is white space.
pub open spec fn is_white(c: char) -> bool {
    let n = c as u32;
    ||| 0x09 <= n <= 0x0d
    ||| n == 0x20
    ||| n == 0x85
    ||| n == 0xa0
    ||| n == 0x1680
    ||| 0x2000 <= n <= 0x200a
    ||| n == 0x2028
    ||| n == 0x2029
    ||| n == 0x202f
    ||| n == 0x205f
    ||| n == 0x3000
}

fn white(c: char) -> (r: bool)
    ensures
        r == is_white(c),
{
    let n: u32 = c as u32;
    (0x09 <= n && n <= 0x0d) || n == 0x20 || n == 0x85 || n == 0xa0 || n == 0x1680 || (0x2000 <= n
        && n <= 0x200a) || n == 0x2028 || n == 0x2029 || n == 0x202f || n == 0x205f || n == 0x3000
}

/// The text without white space at its ends.
pub open spec fn trimmed(s: Seq<char>) -> Seq<char>
    decreases s.len(),
{
    if s.len() > 0 && is_white(s[0]) {
        trimmed(s.skip(1))
    } else if s.len() > 0 && is_white(s.last()) {
        trimmed(s.drop_last())
    } else {
        s
    }
}

/// The entries of a list separated by commas, without white space at their
/// ends; empty ones are left out.
pub open spec fn entries_of(s: Seq<char>) -> Seq<Seq<char>>
    decreases s.len(),
{
    match first_comma(s) {
        Some(i) if 0 <= i < s.len() => kept(trimmed(s.take(i))) + entries_of(s.skip(i + 1)),
        _ => kept(trimmed(s)),
    }
}

/// The entry, unless it is empty.
pub open spec fn kept(s: Seq<char>) -> Seq<Seq<char>> {
    if s.len() == 0 {
        Seq::empty()
    } else {
        seq![s]
    }
}

/// The position of the first comma.
pub open spec fn first_comma(s: Seq<char>) -> Option<int>
    decreases s.len(),
{
    if s.len() == 0 {
        None
    } else if s[0] == ',' {
        Some(0)
    } else {
        match first_comma(s.skip(1)) {
            Some(i) => Some(i + 1),
            None => None,
        }
    }
}

/// The first comma is the one with none before it.
proof fn lemma_first_comma(s: Seq<char>, i: int)
    requires
        0 <= i <= s.len(),
        forall|j: int| 0 <= j < i ==> s[j] != ',',
        i < s.len() ==> s[i] == ',',
    ensures
        first_comma(s) == (if i < s.len() {
            Some(i)
        } else {
            None
        }),
    decreases s.len(),
{
    if s.len() > 0 && i > 0 {
        assert(s[0] != ',');
        let r = s.skip(1);
        assert forall|j: int| 0 <= j < i - 1 implies r[j] != ',' by {
            assert(r[j] == s[j + 1]);
        }
        lemma_first_comma(r, i - 1);
    }
}

/// A part of some text without white space at its ends.
fn trim(v: &Vec<char>, from: usize, to: usize) -> (s: String)
    requires
        from <= to <= v@.len(),
    ensures
        s@ == trimmed(v@.subrange(from as int, to as int)),
{
    let ghost part = v@.subrange(from as int, to as int);
    let mut start: usize = from;
    let mut end: usize = to;
    while start < end && white(v[start])
        invariant
            from <= start <= end,
            end == to,
            to <= v@.len(),
            trimmed(v@.subrange(start as int, end as int)) == trimmed(part),
        decreases end - start,
    {
        assert(v@.subrange(start as int, end as int).skip(1) =~= v@.subrange(
            start as int + 1,
            end as int,
        ));
        start += 1;
    }
    while start < end && white(v[end - 1])
        invariant
            start <= end <= v@.len(),
            start < end ==> !is_white(v@[start as int]),
            trimmed(v@.subrange(start as int, end as int)) == trimmed(part),
        decreases end - start,
    {
        assert(v@.subrange(start as int, end as int).drop_last() =~= v@.subrange(
            start as int,
            end as int - 1,
        ));
        end -= 1;
    }
    string_of(v, start, end)
}

/// The contacts in a list separated by commas.
pub fn contacts_from_csv(csv: &str) -> (v: Vec<String>)
    ensures
        strs(v@) == entries_of(csv@),
{
    let chars = chars_of(csv);
    let n: usize = chars.len();
    let mut out: Vec<String> = Vec::new();
    let mut from: usize = 0;
    let mut more: bool = true;
    assert(chars@.skip(0) =~= chars@);
    assert(strs(out@) + entries_of(chars@.skip(0)) =~= entries_of(csv@));
    while more
        invariant
            n == chars@.len(),
            from <= n,
            more ==> strs(out@) + entries_of(chars@.skip(from as int)) == entries_of(csv@),
            !more ==> strs(out@) == entries_of(csv@),
        decreases n - from + (if more {
            1int
        } else {
            0int
        }),
    {
        let ghost rest = chars@.skip(from as int);
        let mut i: usize = from;
        while i < n && chars[i] != ','
            invariant
                n == chars@.len(),
                from <= i <= n,
                rest == chars@.skip(from as int),
                forall|j: int| 0 <= j < i - from ==> rest[j] != ',',
            decreases n - i,
        {
            i += 1;
        }
        proof {
            lemma_first_comma(rest, i - from);
            assert(rest.take(i - from) =~= chars@.subrange(from as int, i as int));
        }
        let entry = trim(&chars, from, i);
        let ghost before = strs(out@);
        let ghost ev = entry@;
        if !entry.as_str().is_empty() {
            out.push(entry);
            assert(strs(out@) =~= before + kept(ev));
        } else {
            assert(strs(out@) =~= before + kept(ev));
        }
        if i < n {
            proof {
                assert(rest.skip(i - from + 1) =~= chars@.skip(i as int + 1));
                assert(strs(out@) + entries_of(chars@.skip(i as int + 1)) =~= before + entries_of(
                    rest,
                ));
            }
            from = i + 1;
        } else {
            assert(rest.take(i - from) =~= rest);
            more = false;
        }
    }
    out
}

/// The keys of a fetched bundle.
pub open spec fn keys_of(bundle: KeyBundleInfo) -> PeerKeyBundle {
    PeerKeyBundle { identity_key: bundle.identity_key, one_time_key: bundle.one_time_key }
}

/// A failure of encryption, as hosts see it.
pub fn e2ee_failure(e: &E2eeError) -> (f: FfiError)
    ensures
        f matches FfiError::E2ee(m) && m@ == e.text(),
{
    FfiError::E2ee(e.to_string())
}

/// Opens a channel with fetched keys, unless there is one.
fn open_channel(device: &mut E2eeDevice, peer_user: &str, bundle: &KeyBundleInfo) -> (r: Result<
    (),
    FfiError,
>)
    requires
        old(device).wf(),
    ensures
        final(device).wf(),
        final(device).same_keys(old(device)),
        final(device).same_groups(old(device)),
        final(device).same_channels_but(old(device), peer_user@),
        if old(device).peers().contains(peer_user@) {
            r is Ok && *final(device) == *old(device)
        } else {
            match bundle_refusal(keys_of(*bundle)) {
                Some(e) => {
                    &&& r matches Err(FfiError::E2ee(m))
                    &&& m@ == e
                    &&& *final(device) == *old(device)
                },
                None => {
                    &&& r is Ok
                    &&& final(device).peers() == old(device).peers().insert(peer_user@)
                    &&& !final(device).heard(peer_user@)
                    &&& final(device).can_write(peer_user@)
                    &&& final(device).addressed(peer_user@) == bundle_keys(keys_of(*bundle))
                },
            }
        },
{
    if device.has_olm_session(peer_user) {
        return Ok(());
    }
    let keys = PeerKeyBundle {
        identity_key: bundle.identity_key.clone(),
        one_time_key: bundle.one_time_key.clone(),
    };
    match device.establish_outbound(peer_user, &keys) {
        Ok(_) => Ok(()),
        Err(e) => Err(e2ee_failure(&e)),
    }
}

/// Opens a channel to a peer with a bundle that was fetched for it. A bundle
/// that was not found is refused even where there is a channel.
pub fn establish_session(device: &mut E2eeDevice, peer_user: &str, bundle: &KeyBundleInfo) -> (r:
    Result<(), FfiError>)
    requires
        old(device).wf(),
    ensures
        final(device).wf(),
        final(device).same_keys(old(device)),
        final(device).same_groups(old(device)),
        final(device).same_channels_but(old(device), peer_user@),
        if !bundle.found {
            &&& r matches Err(FfiError::E2ee(m))
            &&& m@ == "peer key bundle not found"@
            &&& *final(device) == *old(device)
        } else if old(device).peers().contains(peer_user@) {
            r is Ok && *final(device) == *old(device)
        } else {
            match bundle_refusal(keys_of(*bundle)) {
                Some(e) => {
                    &&& r matches Err(FfiError::E2ee(m))
                    &&& m@ == e
                    &&& *final(device) == *old(device)
                },
                None => {
                    &&& r is Ok
                    &&& final(device).peers() == old(device).peers().insert(peer_user@)
                    &&& !final(device).heard(peer_user@)
                    &&& final(device).can_write(peer_user@)
                    &&& final(device).addressed(peer_user@) == bundle_keys(keys_of(*bundle))
                },
            }
        },
{
    if !bundle.found {
        return Err(FfiError::E2ee("peer key bundle not found".to_string()));
    }
    open_channel(device, peer_user, bundle)
}

/// Opens a channel to a peer with a fetched bundle, unless there is one, and
/// encrypts for the peer.
pub fn establish_and_encrypt(
    device: &mut E2eeDevice,
    peer_user: &str,
    bundle: &KeyBundleInfo,
    plaintext: &[u8],
) -> (r: Result<EncryptedPayload, FfiError>)
    requires
        old(device).wf(),
    ensures
        final(device).wf(),
        final(device).same_keys(old(device)),
        final(device).same_groups(old(device)),
        final(device).same_channels_but(old(device), peer_user@),
        if !old(device).peers().contains(peer_user@) && bundle_refusal(keys_of(*bundle)) is Some {
            &&& r matches Err(FfiError::E2ee(m))
            &&& Some(m@) == bundle_refusal(keys_of(*bundle))
            &&& *final(device) == *old(device)
        } else {
            &&& final(device).peers() == old(device).peers().insert(peer_user@)
            &&& match r {
                Ok(p) => {
                    &&& old(device).peers().contains(peer_user@) ==> old(device).can_write(
                        peer_user@,
                    )
                    &&& final(device).can_write(peer_user@)
                    &&& p@.sender_key == old(device).identity()
                    &&& seals(p@, plaintext@)
                    &&& p.message_type == (if old(device).peers().contains(peer_user@) && old(
                        device,
                    ).heard(peer_user@) {
                        1u32
                    } else {
                        0u32
                    })
                    &&& first_for(
                        if old(device).peers().contains(peer_user@) {
                            old(device).addressed(peer_user@)
                        } else {
                            bundle_keys(keys_of(*bundle))
                        },
                        plaintext@,
                        p@,
                    )
                },
                Err(f) => {
                    &&& f matches FfiError::E2ee(m)
                    &&& m@ == "encryption: "@ + low_order_refusal()
                    &&& old(device).peers().contains(peer_user@)
                    &&& !old(device).can_write(peer_user@)
                    &&& old(device).addressed(peer_user@) is None
                    &&& final(device).same_channel(old(device), peer_user@)
                },
            }
        },
{
    let ghost d0 = *device;
    match open_channel(device, peer_user, bundle) {
        Ok(_) => {},
        Err(e) => {
            return Err(e);
        },
    }
    let ghost d1 = *device;
    let sealed = device.encrypt_for_peer(peer_user, plaintext);
    proof {
        device.lemma_same_groups(&d1, &d0);
        device.lemma_same_keys(&d1, &d0);
        device.lemma_same_channels_but(&d1, &d0, peer_user@);
        if d0.peers().contains(peer_user@) {
            assert(d0.peers().insert(peer_user@) =~= d0.peers());
        }
    }
    match sealed {
        Ok(p) => Ok(p),
        Err(e) => Err(e2ee_failure(&e)),
    }
}

/// How many threads serve the calls of hosts: as many as were asked for, or else
/// as many as the machine offers, four where that is not known, but no fewer
/// than two and no more than eight.
pub fn worker_threads(asked: Option<usize>, offered: Option<usize>) -> (n: usize)
    ensures
        n == (match asked {
            Some(k) => k,
            None => match offered {
                Some(k) => if k < 2 {
                    2
                } else if k > 8 {
                    8
                } else {
                    k
                },
                None => 4,
            },
        }),
{
    match asked {
        Some(k) => k,
        None => match offered {
            Some(k) => if k < 2 {
                2
            } else if k > 8 {
                8
            } else {
                k
            },
            None => 4,
        },
    }
}

/// A key derived from a passphrase.
pub fn passphrase_to_key(passphrase: &str) -> (k: [u8; 32])
    ensures
        k@ == sha256_of(encode_utf8(passphrase@)),
{
    sha256_bytes(passphrase.as_bytes())
}

/// Whether `text` holds the keys of a device under a passphrase.
pub open spec fn exported(device: E2eeDevice, passphrase: Seq<char>, text: Seq<char>) -> bool {
    device.kept_in(text, sha256_of(encode_utf8(passphrase)))
}

/// Exports a device's keys under a passphrase.
pub fn export_pickle(device: &E2eeDevice, passphrase: &str) -> (s: String)
    ensures
        exported(*device, passphrase@, s@),
{
    let key = passphrase_to_key(passphrase);
    device.export_account_pickle(&key)
}

/// What an import of exported keys gives.
pub open spec fn imported(bytes: Seq<u8>, passphrase: Seq<char>, r: Result<
    E2eeDevice,
    FfiError,
>) -> bool {
    if !valid_utf8(bytes) {
        r matches Err(FfiError::InvalidArgument(m)) && m@ == "pickle must be UTF-8"@
    } else {
        match unpickled(decode_utf8(bytes), sha256_of(encode_utf8(passphrase))) {
            Ok(v) => r matches Ok(d) && d.wf() && d.unconnected() && d.keys() == v,
            Err(e) => r matches Err(FfiError::E2ee(m)) && m@ == "account pickle: "@ + e,
        }
    }
}

/// Imports a device's keys. They have to be text.
pub fn import_pickle(bytes: &[u8], passphrase: &str) -> (r: Result<E2eeDevice, FfiError>)
    ensures
        imported(bytes@, passphrase@, r),
{
    match text_from_utf8(bytes) {
        None => Err(FfiError::InvalidArgument("pickle must be UTF-8".to_string())),
        Some(encrypted) => {
            let key = passphrase_to_key(passphrase);
            match E2eeDevice::import_account_pickle(encrypted, &key) {
                Ok(d) => Ok(d),
                Err(e) => Err(e2ee_failure(&e)),
            }
        },
    }
}

/// What was exported under a passphrase can be imported under it, and gives a
/// device with the same identity key and, if they were in order, the same
/// one-time keys, published or not, so that it answers to the same keys.
pub proof fn law_export_can_be_imported(
    device: E2eeDevice,
    passphrase: Seq<char>,
    text: Seq<char>,
    r: Result<E2eeDevice, FfiError>,
)
    requires
        exported(device, passphrase, text),
        imported(encode_utf8(text), passphrase, r),
    ensures
        r matches Ok(d) && d.identity() == device.identity() && d.unconnected() && (
        device.keys_in_order() ==> d.keys() == device.keys() && forall|
            identity: Seq<u8>,
            one_time: Seq<u8>,
        | #[trigger]
            d.answers_to(identity, one_time) == device.answers_to(identity, one_time)),
{
    vstd::utf8::encode_utf8_valid_utf8(text);
    vstd::utf8::encode_utf8_decode_utf8(text);
    match r {
        Ok(d) => {
            if device.keys_in_order() {
                law_same_keys_answer_alike(d, device);
            }
        },
        Err(_) => {},
    }
}

/// Only a failure that may pass is worth another try: a timeout, a closed
/// connection, or a failure of the network. The waits double from fifty
/// milliseconds up to three seconds and two tenths.
pub proof fn law_passing_failures_are_retried(e: FfiError, attempt: u32)
    requires
        attempt < u32::MAX,
    ensures
        worth_retrying(e) <==> e is Messenger && (e->Messenger_0 is Timeout || e->Messenger_0
            is Closed || e->Messenger_0 is Io),
        delay_after(0) == 50,
        attempt < 6 ==> delay_after((attempt + 1) as u32) == 2 * delay_after(attempt),
        attempt >= 6 ==> delay_after((attempt + 1) as u32) == delay_after(attempt),
{
}

/// A host hears of a login first that it succeeded and how much waits, then of
/// every packet that waited and can be shown, in order, and last that it is in
/// sync and up to where.
pub proof fn law_login_is_told_in_order(
    session_id: Seq<char>,
    replayed: Seq<PacketView>,
    latest_seq: u64,
)
    requires
        replayed.len() <= u32::MAX,
        forall|i: int| 0 <= i < replayed.len() ==> event_of(#[trigger] replayed[i]) is Some,
    ensures
        ({
            let e = opening_events(session_id, replayed, latest_seq);
            &&& e.len() == replayed.len() + 2
            &&& e[0] is LoginAck
            &&& e[0]->LoginAck_0.ok
            &&& e[0]->LoginAck_0.session_id == session_id
            &&& e[0]->LoginAck_0.pending_messages == replayed.len()
            &&& forall|i: int|
                0 <= i < replayed.len() ==> #[trigger] e[i + 1] == LaneEventView::SyncMessage(
                    Box::new(event_of(replayed[i])->0),
                )
            &&& e.last() is SyncComplete
            &&& e.last()->SyncComplete_0.latest_seq == latest_seq
            &&& e.last()->SyncComplete_0.delivered == replayed.len()
        }),
{
    lemma_replayed(replayed);
}

/// One event per packet that can be shown.
proof fn lemma_replayed(ps: Seq<PacketView>)
    requires
        forall|i: int| 0 <= i < ps.len() ==> event_of(#[trigger] ps[i]) is Some,
    ensures
        replayed_events(ps).len() == ps.len(),
        forall|i: int|
            0 <= i < ps.len() ==> #[trigger] replayed_events(ps)[i] == LaneEventView::SyncMessage(
                Box::new(event_of(ps[i])->0),
            ),
    decreases ps.len(),
{
    if ps.len() > 0 {
        let d = ps.drop_last();
        assert forall|i: int| 0 <= i < d.len() implies event_of(#[trigger] d[i]) is Some by {
            assert(event_of(ps[i]) is Some);
        }
        lemma_replayed(d);
        assert(event_of(ps[ps.len() - 1]) is Some);
    }
}

/// A list of contacts is read entry by entry: what stands before a comma is read
/// on its own, and an entry without blanks around it is taken as it is. An empty
/// one is left out.
pub proof fn law_contacts_are_separated_by_commas(entry: Seq<char>, rest: Seq<char>)
    requires
        !entry.contains(','),
        entry.len() > 0 ==> !is_white(entry[0]) && !is_white(entry.last()),
    ensures
        entries_of(entry) == (if entry.len() > 0 {
            seq![entry]
        } else {
            Seq::empty()
        }),
        entries_of(entry + seq![','] + rest) == entries_of(entry) + entries_of(rest),
        entries_of(seq![' '] + entry + seq![' ']) == entries_of(entry),
{
    let n = entry.len() as int;
    let all = entry + seq![','] + rest;
    let wide = seq![' '] + entry + seq![' '];
    assert forall|j: int| 0 <= j < n implies entry[j] != ',' by {
        assert(entry.contains(entry[j]));
    }
    lemma_first_comma(entry, n);
    lemma_first_comma(all, n);
    assert forall|j: int| 0 <= j < wide.len() implies wide[j] != ',' by {
        if 1 <= j <= n {
            assert(wide[j] == entry[j - 1]);
        }
    }
    lemma_first_comma(wide, n + 2);
    assert(all.take(n) =~= entry);
    assert(all.skip(n + 1) =~= rest);
    assert(wide.skip(1) =~= entry + seq![' ']);
    assert((entry + seq![' ']).drop_last() =~= entry);
    if n == 0 {
        assert(wide.skip(1) =~= seq![' ']);
        assert(wide.skip(1).skip(1) =~= entry);
        assert(is_white(wide.skip(1)[0]));
    } else {
        assert((entry + seq![' '])[0] == entry[0]);
        assert((entry + seq![' ']).last() == ' ');
    }
    assert(trimmed(entry) == entry);
    assert(trimmed(wide.skip(1)) == entry);
    assert(trimmed(wide) == entry);
}

} // verus!
