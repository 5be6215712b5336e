//! Events as JSON text.

use crate::ffi::events::LaneEvent;
use crate::text::{
    bool_text, chars_of, concat3, decimal, decimal_int, hex_digit, hex_encode, hex_text, hex_char,
    push_bool, push_decimal, push_decimal_int,
};
use vstd::prelude::*;

verus! {

/// Whether a character is a control character.
pub open spec fn is_control(c: char) -> bool {
    c as u32 <= 0x1f || 0x7f <= c as u32 <= 0x9f
}

/// A number below 256 as four hexadecimal digits.
pub open spec fn four_digits(n: nat) -> Seq<char> {
    seq!['0', '0', hex_char(n / 16), hex_char(n % 16)]
}

/// A character inside a JSON string.
pub open spec fn escaped_char(c: char) -> Seq<char> {
    if c == '"' {
        seq!['\\', '"']
    } else if c == '\\' {
        seq!['\\', '\\']
    } else if c == '\n' {
        seq!['\\', 'n']
    } else if c == '\r' {
        seq!['\\', 'r']
    } else if c == '\t' {
        seq!['\\', 't']
    } else if is_control(c) {
        seq!['\\', 'u'] + four_digits((c as u32) as nat)
    } else {
        seq![c]
    }
}

/// A text inside a JSON string.
pub open spec fn escaped(s: Seq<char>) -> Seq<char>
    decreases s.len(),
{
    if s.len() == 0 {
        s
    } else {
        escaped(s.drop_last()) + escaped_char(s.last())
    }
}

/// Appends a text as the inside of a JSON string.
pub fn push_escaped(out: &mut String, s: &str)
    ensures
        final(out)@ == old(out)@ + escaped(s@),
{
    let ghost was = out@;
    let v = chars_of(s);
    let mut i: usize = 0;
    assert(v@.take(0) =~= Seq::<char>::empty());
    assert(out@ =~= was + escaped(v@.take(0)));
    while i < v.len()
        invariant
            v@ == s@,
            i <= v@.len(),
            out@ == was + escaped(v@.take(i as int)),
        decreases v@.len() - i,
    {
        let c: char = v[i];
        let ghost before = out@;
        if c == '"' {
            out.push('\\');
            out.push('"');
        } else if c == '\\' {
            out.push('\\');
            out.push('\\');
        } else if c == '\n' {
            out.push('\\');
            out.push('n');
        } else if c == '\r' {
            out.push('\\');
            out.push('r');
        } else if c == '\t' {
            out.push('\\');
            out.push('t');
        } else if c as u32 <= 0x1f || (0x7f <= c as u32 && c as u32 <= 0x9f) {
            let n: u8 = (c as u32) as u8;
            out.push('\\');
            out.push('u');
            out.push('0');
            out.push('0');
            out.push(hex_digit(n / 16));
            out.push(hex_digit(n % 16));
        } else {
            out.push(c);
        }
        proof {
            assert(escaped_char(c).len() <= 6);
            assert(out@ =~= before + escaped_char(c));
            let t = v@.take(i as int + 1);
            assert(t.drop_last() =~= v@.take(i as int));
            assert(t.last() == c);
            assert(out@ =~= was + escaped(t));
        }
        i += 1;
    }
    assert(v@.take(i as int) =~= v@);
}

/// The text inside a JSON string.
pub fn json_escape(s: &str) -> (r: String)
    ensures
        r@ == escaped(s@),
{
    let mut out = String::new();
    push_escaped(&mut out, s);
    assert(out@ =~= escaped(s@));
    out
}

/// The JSON text of an event.
pub open spec fn json_text(ev: LaneEvent) -> Seq<char>
    decreases ev,
{
    match ev {
        LaneEvent::LoginAck(e) => "{\"type\":\"LoginAck\",\"session_id\":\""@
            + escaped(e.session_id@)
            + "\",\"pending_messages\":"@
            + decimal(e.pending_messages as nat)
            + ",\"ok\":"@
            + bool_text(e.ok)
            + ",\"error\":\""@
            + escaped(e.error@)
            + "\"}"@,
        LaneEvent::SyncMessage(e) => "{\"type\":\"SyncMessage\",\"inner\":"@ + json_text(*e) + "}"@,
        LaneEvent::SyncComplete(e) => "{\"type\":\"SyncComplete\",\"delivered\":"@
            + decimal(e.delivered as nat)
            + ",\"latest_seq\":"@
            + decimal(e.latest_seq as nat)
            + "}"@,
        LaneEvent::ChatMessage(e) => "{\"type\":\"ChatMessage\",\"message_id\":\""@
            + escaped(e.message_id@)
            + "\",\"from_user\":\""@
            + escaped(e.from_user@)
            + "\",\"to_user\":\""@
            + escaped(e.to_user@)
            + "\",\"body_hex\":\""@
            + hex_text(e.body@)
            + "\",\"sent_at\":"@
            + decimal(e.sent_at as nat)
            + ",\"seq\":"@
            + decimal(e.seq as nat)
            + ",\"media_id\":\""@
            + escaped(e.media_id@)
            + "\"}"@,
        LaneEvent::ServerAck(e) => "{\"type\":\"ServerAck\",\"message_id\":\""@
            + escaped(e.message_id@)
            + "\",\"seq\":"@
            + decimal(e.seq as nat)
            + "}"@,
        LaneEvent::DeliveredAck(e) => "{\"type\":\"DeliveredAck\",\"message_id\":\""@
            + escaped(e.message_id@)
            + "\",\"from_user\":\""@
            + escaped(e.from_user@)
            + "\"}"@,
        LaneEvent::ReadAck(e) => "{\"type\":\"ReadAck\",\"message_id\":\""@
            + escaped(e.message_id@)
            + "\",\"from_user\":\""@
            + escaped(e.from_user@)
            + "\"}"@,
        LaneEvent::GroupAckSummary(e) => "{\"type\":\"GroupAckSummary\",\"message_id\":\""@
            + escaped(e.message_id@)
            + "\",\"group_id\":\""@
            + escaped(e.group_id@)
            + "\",\"member_count\":"@
            + decimal(e.member_count as nat)
            + "}"@,
        LaneEvent::Presence(e) => "{\"type\":\"Presence\",\"user_id\":\""@
            + escaped(e.user_id@)
            + "\",\"kind\":"@
            + decimal_int(e.kind as int)
            + ",\"last_seen\":"@
            + decimal(e.last_seen as nat)
            + "}"@,
        LaneEvent::GroupMessage(e) => "{\"type\":\"GroupMessage\",\"message_id\":\""@
            + escaped(e.message_id@)
            + "\",\"from_user\":\""@
            + escaped(e.from_user@)
            + "\",\"group_id\":\""@
            + escaped(e.group_id@)
            + "\",\"body_hex\":\""@
            + hex_text(e.body@)
            + "\"}"@,
        LaneEvent::GroupEvent(e) => "{\"type\":\"GroupEvent\",\"group_id\":\""@
            + escaped(e.group_id@)
            + "\",\"op\":"@
            + decimal_int(e.op as int)
            + ",\"version\":"@
            + decimal(e.version as nat)
            + "}"@,
        LaneEvent::MediaStart(e) => "{\"type\":\"MediaStart\",\"media_id\":\""@
            + escaped(e.media_id@)
            + "\",\"file_name\":\""@
            + escaped(e.file_name@)
            + "\",\"total_size\":"@
            + decimal(e.total_size as nat)
            + "}"@,
        LaneEvent::MediaChunk(e) => "{\"type\":\"MediaChunk\",\"media_id\":\""@
            + escaped(e.media_id@)
            + "\",\"offset\":"@
            + decimal(e.offset as nat)
            + ",\"last\":"@
            + bool_text(e.last)
            + "}"@,
        LaneEvent::MediaAck(e) => "{\"type\":\"MediaAck\",\"media_id\":\""@
            + escaped(e.media_id@)
            + "\",\"ok\":"@
            + bool_text(e.ok)
            + ",\"complete\":"@
            + bool_text(e.complete)
            + ",\"received_bytes\":"@
            + decimal(e.received_bytes as nat)
            + "}"@,
        LaneEvent::KeyBundle(e) => "{\"type\":\"KeyBundle\",\"user_id\":\""@
            + escaped(e.user_id@)
            + "\",\"device_id\":\""@
            + escaped(e.device_id@)
            + "\",\"found\":"@
            + bool_text(e.found)
            + "}"@,
        LaneEvent::ProtocolError(e) => "{\"type\":\"ProtocolError\",\"code\":"@
            + decimal_int(e.code as int)
            + ",\"detail\":\""@
            + escaped(e.detail@)
            + "\"}"@,
        LaneEvent::Disconnected { reason } => "{\"type\":\"Disconnected\",\"reason\":\""@
            + escaped(reason@) + "\"}"@,
        LaneEvent::ReplacedByNewSession => "{\"type\":\"ReplacedByNewSession\"}"@,
        LaneEvent::Pong { seq } => "{\"type\":\"Pong\",\"seq\":"@ + decimal(seq as nat) + "}"@,
    }
}

/// The JSON text of an event.
pub fn event_to_json(ev: &LaneEvent) -> (r: String)
    ensures
        r@ == json_text(*ev),
    decreases *ev,
{
    match ev {
        LaneEvent::LoginAck(e) => {
            let mut s = "{\"type\":\"LoginAck\",\"session_id\":\"".to_string();
            push_escaped(&mut s, e.session_id.as_str());
            s.push_str("\",\"pending_messages\":");
            push_decimal(&mut s, e.pending_messages as u64);
            s.push_str(",\"ok\":");
            push_bool(&mut s, e.ok);
            s.push_str(",\"error\":\"");
            push_escaped(&mut s, e.error.as_str());
            s.push_str("\"}");
            s
        },
        LaneEvent::SyncMessage(e) => {
            let inner = event_to_json(e);
            concat3("{\"type\":\"SyncMessage\",\"inner\":", inner.as_str(), "}")
        },
        LaneEvent::SyncComplete(e) => {
            let mut s = "{\"type\":\"SyncComplete\",\"delivered\":".to_string();
            push_decimal(&mut s, e.delivered as u64);
            s.push_str(",\"latest_seq\":");
            push_decimal(&mut s, e.latest_seq as u64);
            s.push_str("}");
            s
        },
        LaneEvent::ChatMessage(e) => {
            let mut s = "{\"type\":\"ChatMessage\",\"message_id\":\"".to_string();
            push_escaped(&mut s, e.message_id.as_str());
            s.push_str("\",\"from_user\":\"");
            push_escaped(&mut s, e.from_user.as_str());
            s.push_str("\",\"to_user\":\"");
            push_escaped(&mut s, e.to_user.as_str());
            s.push_str("\",\"body_hex\":\"");
            s.push_str(hex_encode(e.body.as_slice()).as_str());
            s.push_str("\",\"sent_at\":");
            push_decimal(&mut s, e.sent_at as u64);
            s.push_str(",\"seq\":");
            push_decimal(&mut s, e.seq as u64);
            s.push_str(",\"media_id\":\"");
            push_escaped(&mut s, e.media_id.as_str());
            s.push_str("\"}");
            s
        },
        LaneEvent::ServerAck(e) => {
            let mut s = "{\"type\":\"ServerAck\",\"message_id\":\"".to_string();
            push_escaped(&mut s, e.message_id.as_str());
            s.push_str("\",\"seq\":");
            push_decimal(&mut s, e.seq as u64);
            s.push_str("}");
            s
        },
        LaneEvent::DeliveredAck(e) => {
            let mut s = "{\"type\":\"DeliveredAck\",\"message_id\":\"".to_string();
            push_escaped(&mut s, e.message_id.as_str());
            s.push_str("\",\"from_user\":\"");
            push_escaped(&mut s, e.from_user.as_str());
            s.push_str("\"}");
            s
        },
        LaneEvent::ReadAck(e) => {
            let mut s = "{\"type\":\"ReadAck\",\"message_id\":\"".to_string();
            push_escaped(&mut s, e.message_id.as_str());
            s.push_str("\",\"from_user\":\"");
            push_escaped(&mut s, e.from_user.as_str());
            s.push_str("\"}");
            s
        },
        LaneEvent::GroupAckSummary(e) => {
            let mut s = "{\"type\":\"GroupAckSummary\",\"message_id\":\"".to_string();
            push_escaped(&mut s, e.message_id.as_str());
            s.push_str("\",\"group_id\":\"");
            push_escaped(&mut s, e.group_id.as_str());
            s.push_str("\",\"member_count\":");
            push_decimal(&mut s, e.member_count as u64);
            s.push_str("}");
            s
        },
        LaneEvent::Presence(e) => {
            let mut s = "{\"type\":\"Presence\",\"user_id\":\"".to_string();
            push_escaped(&mut s, e.user_id.as_str());
            s.push_str("\",\"kind\":");
            push_decimal_int(&mut s, e.kind);
            s.push_str(",\"last_seen\":");
            push_decimal(&mut s, e.last_seen as u64);
            s.push_str("}");
            s
        },
        LaneEvent::GroupMessage(e) => {
            let mut s = "{\"type\":\"GroupMessage\",\"message_id\":\"".to_string();
            push_escaped(&mut s, e.message_id.as_str());
            s.push_str("\",\"from_user\":\"");
            push_escaped(&mut s, e.from_user.as_str());
            s.push_str("\",\"group_id\":\"");
            push_escaped(&mut s, e.group_id.as_str());
            s.push_str("\",\"body_hex\":\"");
            s.push_str(hex_encode(e.body.as_slice()).as_str());
            s.push_str("\"}");
            s
        },
        LaneEvent::GroupEvent(e) => {
            let mut s = "{\"type\":\"GroupEvent\",\"group_id\":\"".to_string();
            push_escaped(&mut s, e.group_id.as_str());
            s.push_str("\",\"op\":");
            push_decimal_int(&mut s, e.op);
            s.push_str(",\"version\":");
            push_decimal(&mut s, e.version as u64);
            s.push_str("}");
            s
        },
        LaneEvent::MediaStart(e) => {
            let mut s = "{\"type\":\"MediaStart\",\"media_id\":\"".to_string();
            push_escaped(&mut s, e.media_id.as_str());
            s.push_str("\",\"file_name\":\"");
            push_escaped(&mut s, e.file_name.as_str());
            s.push_str("\",\"total_size\":");
            push_decimal(&mut s, e.total_size as u64);
            s.push_str("}");
            s
        },
        LaneEvent::MediaChunk(e) => {
            let mut s = "{\"type\":\"MediaChunk\",\"media_id\":\"".to_string();
            push_escaped(&mut s, e.media_id.as_str());
            s.push_str("\",\"offset\":");
            push_decimal(&mut s, e.offset as u64);
            s.push_str(",\"last\":");
            push_bool(&mut s, e.last);
            s.push_str("}");
            s
        },
        LaneEvent::MediaAck(e) => {
            let mut s = "{\"type\":\"MediaAck\",\"media_id\":\"".to_string();
            push_escaped(&mut s, e.media_id.as_str());
            s.push_str("\",\"ok\":");
            push_bool(&mut s, e.ok);
            s.push_str(",\"complete\":");
            push_bool(&mut s, e.complete);
            s.push_str(",\"received_bytes\":");
            push_decimal(&mut s, e.received_bytes as u64);
            s.push_str("}");
            s
        },
        LaneEvent::KeyBundle(e) => {
            let mut s = "{\"type\":\"KeyBundle\",\"user_id\":\"".to_string();
            push_escaped(&mut s, e.user_id.as_str());
            s.push_str("\",\"device_id\":\"");
            push_escaped(&mut s, e.device_id.as_str());
            s.push_str("\",\"found\":");
            push_bool(&mut s, e.found);
            s.push_str("}");
            s
        },
        LaneEvent::ProtocolError(e) => {
            let mut s = "{\"type\":\"ProtocolError\",\"code\":".to_string();
            push_decimal_int(&mut s, e.code);
            s.push_str(",\"detail\":\"");
            push_escaped(&mut s, e.detail.as_str());
            s.push_str("\"}");
            s
        },
        LaneEvent::Disconnected { reason } => {
            let mut s = "{\"type\":\"Disconnected\",\"reason\":\"".to_string();
            push_escaped(&mut s, reason.as_str());
            s.push_str("\"}");
            s
        },
        LaneEvent::ReplacedByNewSession => "{\"type\":\"ReplacedByNewSession\"}".to_string(),
        LaneEvent::Pong { seq } => {
            let mut s = "{\"type\":\"Pong\",\"seq\":".to_string();
            push_decimal(&mut s, *seq);
            s.push_str("}");
            s
        },
    }
}

/// The short JSON text of an event. Events without a short form are shown by
/// their debug text.
pub open spec fn short_json_text(ev: LaneEvent, debug: Seq<char>) -> Seq<char> {
    match ev {
        LaneEvent::LoginAck(e) => "{\"type\":\"LoginAck\",\"session_id\":\""@
            + e.session_id@
            + "\",\"ok\":"@
            + bool_text(e.ok)
            + "}"@,
        LaneEvent::SyncComplete(e) => "{\"type\":\"SyncComplete\",\"latest_seq\":"@
            + decimal(e.latest_seq as nat)
            + "}"@,
        LaneEvent::ChatMessage(e) => "{\"type\":\"ChatMessage\",\"message_id\":\""@
            + e.message_id@
            + "\",\"from_user\":\""@
            + e.from_user@
            + "\",\"seq\":"@
            + decimal(e.seq as nat)
            + "}"@,
        LaneEvent::ServerAck(e) => "{\"type\":\"ServerAck\",\"message_id\":\""@
            + e.message_id@
            + "\",\"seq\":"@
            + decimal(e.seq as nat)
            + "}"@,
        LaneEvent::DeliveredAck(e) => "{\"type\":\"DeliveredAck\",\"message_id\":\""@
            + e.message_id@
            + "\"}"@,
        LaneEvent::ReadAck(e) => "{\"type\":\"ReadAck\",\"message_id\":\""@
            + e.message_id@
            + "\"}"@,
        LaneEvent::GroupMessage(e) => "{\"type\":\"GroupMessage\",\"message_id\":\""@
            + e.message_id@
            + "\",\"group_id\":\""@
            + e.group_id@
            + "\"}"@,
        LaneEvent::GroupAckSummary(e) => "{\"type\":\"GroupAckSummary\",\"message_id\":\""@
            + e.message_id@
            + "\",\"member_count\":"@
            + decimal(e.member_count as nat)
            + "}"@,
        LaneEvent::Presence(e) => "{\"type\":\"Presence\",\"user_id\":\""@
            + e.user_id@
            + "\",\"kind\":"@
            + decimal_int(e.kind as int)
            + "}"@,
        LaneEvent::ReplacedByNewSession => "{\"type\":\"ReplacedByNewSession\"}"@,
        LaneEvent::Disconnected { reason } => "{\"type\":\"Disconnected\",\"reason\":\""@ + reason@
            + "\"}"@,
        _ => "{\"type\":\"Other\",\"debug\":\""@ + debug + "\"}"@,
    }
}

/// The short JSON text of an event; `debug` is its debug text.
pub fn event_json(ev: &LaneEvent, debug: &str) -> (r: String)
    ensures
        r@ == short_json_text(*ev, debug@),
{
    match ev {
        LaneEvent::LoginAck(e) => {
            let mut s = "{\"type\":\"LoginAck\",\"session_id\":\"".to_string();
            s.push_str(e.session_id.as_str());
            s.push_str("\",\"ok\":");
            push_bool(&mut s, e.ok);
            s.push_str("}");
            s
        },
        LaneEvent::SyncComplete(e) => {
            let mut s = "{\"type\":\"SyncComplete\",\"latest_seq\":".to_string();
            push_decimal(&mut s, e.latest_seq as u64);
            s.push_str("}");
            s
        },
        LaneEvent::ChatMessage(e) => {
            let mut s = "{\"type\":\"ChatMessage\",\"message_id\":\"".to_string();
            s.push_str(e.message_id.as_str());
            s.push_str("\",\"from_user\":\"");
            s.push_str(e.from_user.as_str());
            s.push_str("\",\"seq\":");
            push_decimal(&mut s, e.seq as u64);
            s.push_str("}");
            s
        },
        LaneEvent::ServerAck(e) => {
            let mut s = "{\"type\":\"ServerAck\",\"message_id\":\"".to_string();
            s.push_str(e.message_id.as_str());
            s.push_str("\",\"seq\":");
            push_decimal(&mut s, e.seq as u64);
            s.push_str("}");
            s
        },
        LaneEvent::DeliveredAck(e) => {
            let mut s = "{\"type\":\"DeliveredAck\",\"message_id\":\"".to_string();
            s.push_str(e.message_id.as_str());
            s.push_str("\"}");
            s
        },
        LaneEvent::ReadAck(e) => {
            let mut s = "{\"type\":\"ReadAck\",\"message_id\":\"".to_string();
            s.push_str(e.message_id.as_str());
            s.push_str("\"}");
            s
        },
        LaneEvent::GroupMessage(e) => {
            let mut s = "{\"type\":\"GroupMessage\",\"message_id\":\"".to_string();
            s.push_str(e.message_id.as_str());
            s.push_str("\",\"group_id\":\"");
            s.push_str(e.group_id.as_str());
            s.push_str("\"}");
            s
        },
        LaneEvent::GroupAckSummary(e) => {
            let mut s = "{\"type\":\"GroupAckSummary\",\"message_id\":\"".to_string();
            s.push_str(e.message_id.as_str());
            s.push_str("\",\"member_count\":");
            push_decimal(&mut s, e.member_count as u64);
            s.push_str("}");
            s
        },
        LaneEvent::Presence(e) => {
            let mut s = "{\"type\":\"Presence\",\"user_id\":\"".to_string();
            s.push_str(e.user_id.as_str());
            s.push_str("\",\"kind\":");
            push_decimal_int(&mut s, e.kind);
            s.push_str("}");
            s
        },
        LaneEvent::ReplacedByNewSession => "{\"type\":\"ReplacedByNewSession\"}".to_string(),
        LaneEvent::Disconnected { reason } => concat3(
            "{\"type\":\"Disconnected\",\"reason\":\"",
            reason.as_str(),
            "\"}",
        ),
        _ => concat3("{\"type\":\"Other\",\"debug\":\"", debug, "\"}"),
    }
}

/// Hexadecimal digits need no escape.
proof fn lemma_hex_digits_are_plain(d: nat)
    requires
        d < 16,
    ensures
        !is_control(hex_char(d)),
        hex_char(d) != '"',
{
}

/// Nothing that would end a JSON string, and no control character, is left in
/// escaped text.
pub proof fn law_escaped_text_stays_inside(s: Seq<char>)
    ensures
        forall|i: int| 0 <= i < escaped(s).len() ==> !is_control(#[trigger] escaped(s)[i]),
        forall|i: int|
            0 <= i < escaped(s).len() && #[trigger] escaped(s)[i] == '"' ==> i > 0 && escaped(s)[i
                - 1] == '\\',
    decreases s.len(),
{
    if s.len() > 0 {
        let d = escaped(s.drop_last());
        let e = escaped_char(s.last());
        law_escaped_text_stays_inside(s.drop_last());
        assert(escaped(s) == d + e);
        let n = (s.last() as u32) as nat;
        if n < 256 {
            lemma_hex_digits_are_plain(n / 16);
            lemma_hex_digits_are_plain(n % 16);
        }
        assert forall|i: int| 0 <= i < escaped(s).len() implies !is_control(
            #[trigger] escaped(s)[i],
        ) by {
            if i < d.len() {
                assert(escaped(s)[i] == d[i]);
            } else {
                assert(escaped(s)[i] == e[i - d.len()]);
            }
        }
        assert forall|i: int|
            0 <= i < escaped(s).len() && #[trigger] escaped(s)[i] == '"' implies i > 0 && escaped(
            s,
        )[i - 1] == '\\' by {
            if i < d.len() {
                assert(escaped(s)[i] == d[i]);
                assert(escaped(s)[i - 1] == d[i - 1]);
            } else {
                assert(escaped(s)[i] == e[i - d.len()]);
                assert(i > d.len());
                assert(escaped(s)[i - 1] == e[i - 1 - d.len()]);
            }
        }
    }
}

/// Whether a piece occurs in a text.
pub open spec fn holds(text: Seq<char>, piece: Seq<char>) -> bool {
    exists|i: int|
        0 <= i <= text.len() - piece.len() && #[trigger] text.subrange(i, i + piece.len()) == piece
}

/// A text holds what it is made of.
proof fn lemma_start(name: Seq<char>, value: Seq<char>)
    ensures
        holds(name + value, name + value),
{
    let t = name + value;
    assert(t.subrange(0, 0 + t.len() as int) =~= t);
}

/// A longer text holds what a shorter one does.
proof fn lemma_end(text: Seq<char>, more: Seq<char>)
    ensures
        forall|p: Seq<char>| holds(text, p) ==> #[trigger] holds(text + more, p),
{
    assert forall|p: Seq<char>| holds(text, p) implies #[trigger] holds(text + more, p) by {
        let i = choose|i: int|
            0 <= i <= text.len() - p.len() && #[trigger] text.subrange(i, i + p.len()) == p;
        assert((text + more).subrange(i, i + p.len()) =~= text.subrange(i, i + p.len()));
    }
}

/// A text with one more member holds the member, and what it held.
proof fn lemma_pair(text: Seq<char>, name: Seq<char>, value: Seq<char>)
    ensures
        holds(text + name + value, name + value),
        forall|p: Seq<char>| holds(text, p) ==> #[trigger] holds(text + name + value, p),
{
    let all = text + name + value;
    let p = name + value;
    let i = text.len() as int;
    assert(all.subrange(i, i + p.len()) =~= p);
    lemma_end(text, name);
    lemma_end(text + name, value);
}

/// An event as JSON names its kind and holds every member under its name, with
/// text escaped, bytes in hexadecimal and numbers in decimal. An event of a
/// replay holds the replayed one.
pub proof fn law_json_holds_the_event(ev: LaneEvent)
    ensures
        match ev {
            LaneEvent::LoginAck(e) => {
                &&& holds(json_text(ev), "{\"type\":\"LoginAck\",\"session_id\":\""@ + escaped(e.session_id@))
                &&& holds(json_text(ev), "\",\"pending_messages\":"@ + decimal(e.pending_messages as nat))
                &&& holds(json_text(ev), ",\"ok\":"@ + (if e.ok {
                        "true"@
                    } else {
                        "false"@
                    }))
                &&& holds(json_text(ev), ",\"error\":\""@ + escaped(e.error@))
            },
            LaneEvent::SyncMessage(e) => {
                &&& holds(json_text(ev), "{\"type\":\"SyncMessage\",\"inner\":"@ + json_text(*e))
            },
            LaneEvent::SyncComplete(e) => {
                &&& holds(json_text(ev), "{\"type\":\"SyncComplete\",\"delivered\":"@ + decimal(e.delivered as nat))
                &&& holds(json_text(ev), ",\"latest_seq\":"@ + decimal(e.latest_seq as nat))
            },
            LaneEvent::ChatMessage(e) => {
                &&& holds(json_text(ev), "{\"type\":\"ChatMessage\",\"message_id\":\""@ + escaped(e.message_id@))
                &&& holds(json_text(ev), "\",\"from_user\":\""@ + escaped(e.from_user@))
                &&& holds(json_text(ev), "\",\"to_user\":\""@ + escaped(e.to_user@))
                &&& holds(json_text(ev), "\",\"body_hex\":\""@ + hex_text(e.body@))
                &&& holds(json_text(ev), "\",\"sent_at\":"@ + decimal(e.sent_at as nat))
                &&& holds(json_text(ev), ",\"seq\":"@ + decimal(e.seq as nat))
                &&& holds(json_text(ev), ",\"media_id\":\""@ + escaped(e.media_id@))
            },
            LaneEvent::ServerAck(e) => {
                &&& holds(json_text(ev), "{\"type\":\"ServerAck\",\"message_id\":\""@ + escaped(e.message_id@))
                &&& holds(json_text(ev), "\",\"seq\":"@ + decimal(e.seq as nat))
            },
            LaneEvent::DeliveredAck(e) => {
                &&& holds(json_text(ev), "{\"type\":\"DeliveredAck\",\"message_id\":\""@ + escaped(e.message_id@))
                &&& holds(json_text(ev), "\",\"from_user\":\""@ + escaped(e.from_user@))
            },
            LaneEvent::ReadAck(e) => {
                &&& holds(json_text(ev), "{\"type\":\"ReadAck\",\"message_id\":\""@ + escaped(e.message_id@))
                &&& holds(json_text(ev), "\",\"from_user\":\""@ + escaped(e.from_user@))
            },
            LaneEvent::GroupAckSummary(e) => {
                &&& holds(json_text(ev), "{\"type\":\"GroupAckSummary\",\"message_id\":\""@ + escaped(e.message_id@))
                &&& holds(json_text(ev), "\",\"group_id\":\""@ + escaped(e.group_id@))
                &&& holds(json_text(ev), "\",\"member_count\":"@ + decimal(e.member_count as nat))
            },
            LaneEvent::Presence(e) => {
                &&& holds(json_text(ev), "{\"type\":\"Presence\",\"user_id\":\""@ + escaped(e.user_id@))
                &&& holds(json_text(ev), "\",\"kind\":"@ + decimal_int(e.kind as int))
                &&& holds(json_text(ev), ",\"last_seen\":"@ + decimal(e.last_seen as nat))
            },
            LaneEvent::GroupMessage(e) => {
                &&& holds(json_text(ev), "{\"type\":\"GroupMessage\",\"message_id\":\""@ + escaped(e.message_id@))
                &&& holds(json_text(ev), "\",\"from_user\":\""@ + escaped(e.from_user@))
                &&& holds(json_text(ev), "\",\"group_id\":\""@ + escaped(e.group_id@))
                &&& holds(json_text(ev), "\",\"body_hex\":\""@ + hex_text(e.body@))
            },
            LaneEvent::GroupEvent(e) => {
                &&& holds(json_text(ev), "{\"type\":\"GroupEvent\",\"group_id\":\""@ + escaped(e.group_id@))
                &&& holds(json_text(ev), "\",\"op\":"@ + decimal_int(e.op as int))
                &&& holds(json_text(ev), ",\"version\":"@ + decimal(e.version as nat))
            },
            LaneEvent::MediaStart(e) => {
                &&& holds(json_text(ev), "{\"type\":\"MediaStart\",\"media_id\":\""@ + escaped(e.media_id@))
                &&& holds(json_text(ev), "\",\"file_name\":\""@ + escaped(e.file_name@))
                &&& holds(json_text(ev), "\",\"total_size\":"@ + decimal(e.total_size as nat))
            },
            LaneEvent::MediaChunk(e) => {
                &&& holds(json_text(ev), "{\"type\":\"MediaChunk\",\"media_id\":\""@ + escaped(e.media_id@))
                &&& holds(json_text(ev), "\",\"offset\":"@ + decimal(e.offset as nat))
                &&& holds(json_text(ev), ",\"last\":"@ + (if e.last {
                        "true"@
                    } else {
                        "false"@
                    }))
            },
            LaneEvent::MediaAck(e) => {
                &&& holds(json_text(ev), "{\"type\":\"MediaAck\",\"media_id\":\""@ + escaped(e.media_id@))
                &&& holds(json_text(ev), "\",\"ok\":"@ + (if e.ok {
                        "true"@
                    } else {
                        "false"@
                    }))
                &&& holds(json_text(ev), ",\"complete\":"@ + (if e.complete {
                        "true"@
                    } else {
                        "false"@
                    }))
                &&& holds(json_text(ev), ",\"received_bytes\":"@ + decimal(e.received_bytes as nat))
            },
            LaneEvent::KeyBundle(e) => {
                &&& holds(json_text(ev), "{\"type\":\"KeyBundle\",\"user_id\":\""@ + escaped(e.user_id@))
                &&& holds(json_text(ev), "\",\"device_id\":\""@ + escaped(e.device_id@))
                &&& holds(json_text(ev), "\",\"found\":"@ + (if e.found {
                        "true"@
                    } else {
                        "false"@
                    }))
            },
            LaneEvent::ProtocolError(e) => {
                &&& holds(json_text(ev), "{\"type\":\"ProtocolError\",\"code\":"@ + decimal_int(e.code as int))
                &&& holds(json_text(ev), ",\"detail\":\""@ + escaped(e.detail@))
            },
            LaneEvent::Disconnected { reason } => {
                &&& holds(json_text(ev), "{\"type\":\"Disconnected\",\"reason\":\""@ + escaped(reason@))
            },
            LaneEvent::ReplacedByNewSession => {
                &&& json_text(ev) == "{\"type\":\"ReplacedByNewSession\"}"@
            },
            LaneEvent::Pong { seq } => {
                &&& holds(json_text(ev), "{\"type\":\"Pong\",\"seq\":"@ + decimal(seq as nat))
            },
        },
{
    match ev {
        LaneEvent::LoginAck(e) => {
            lemma_start("{\"type\":\"LoginAck\",\"session_id\":\""@, escaped(e.session_id@));
            let t1 = "{\"type\":\"LoginAck\",\"session_id\":\""@ + escaped(e.session_id@);
            lemma_pair(t1, "\",\"pending_messages\":"@, decimal(e.pending_messages as nat));
            let t2 = t1 + "\",\"pending_messages\":"@ + decimal(e.pending_messages as nat);
            lemma_pair(t2, ",\"ok\":"@, bool_text(e.ok));
            let t3 = t2 + ",\"ok\":"@ + bool_text(e.ok);
            lemma_pair(t3, ",\"error\":\""@, escaped(e.error@));
            let t4 = t3 + ",\"error\":\""@ + escaped(e.error@);
            lemma_end(t4, "\"}"@);
        },
        LaneEvent::SyncMessage(e) => {
            lemma_start("{\"type\":\"SyncMessage\",\"inner\":"@, json_text(*e));
            let t1 = "{\"type\":\"SyncMessage\",\"inner\":"@ + json_text(*e);
            lemma_end(t1, "}"@);
        },
        LaneEvent::SyncComplete(e) => {
            lemma_start("{\"type\":\"SyncComplete\",\"delivered\":"@, decimal(e.delivered as nat));
            let t1 = "{\"type\":\"SyncComplete\",\"delivered\":"@ + decimal(e.delivered as nat);
            lemma_pair(t1, ",\"latest_seq\":"@, decimal(e.latest_seq as nat));
            let t2 = t1 + ",\"latest_seq\":"@ + decimal(e.latest_seq as nat);
            lemma_end(t2, "}"@);
        },
        LaneEvent::ChatMessage(e) => {
            lemma_start("{\"type\":\"ChatMessage\",\"message_id\":\""@, escaped(e.message_id@));
            let t1 = "{\"type\":\"ChatMessage\",\"message_id\":\""@ + escaped(e.message_id@);
            lemma_pair(t1, "\",\"from_user\":\""@, escaped(e.from_user@));
            let t2 = t1 + "\",\"from_user\":\""@ + escaped(e.from_user@);
            lemma_pair(t2, "\",\"to_user\":\""@, escaped(e.to_user@));
            let t3 = t2 + "\",\"to_user\":\""@ + escaped(e.to_user@);
            lemma_pair(t3, "\",\"body_hex\":\""@, hex_text(e.body@));
            let t4 = t3 + "\",\"body_hex\":\""@ + hex_text(e.body@);
            lemma_pair(t4, "\",\"sent_at\":"@, decimal(e.sent_at as nat));
            let t5 = t4 + "\",\"sent_at\":"@ + decimal(e.sent_at as nat);
            lemma_pair(t5, ",\"seq\":"@, decimal(e.seq as nat));
            let t6 = t5 + ",\"seq\":"@ + decimal(e.seq as nat);
            lemma_pair(t6, ",\"media_id\":\""@, escaped(e.media_id@));
            let t7 = t6 + ",\"media_id\":\""@ + escaped(e.media_id@);
            lemma_end(t7, "\"}"@);
        },
        LaneEvent::ServerAck(e) => {
            lemma_start("{\"type\":\"ServerAck\",\"message_id\":\""@, escaped(e.message_id@));
            let t1 = "{\"type\":\"ServerAck\",\"message_id\":\""@ + escaped(e.message_id@);
            lemma_pair(t1, "\",\"seq\":"@, decimal(e.seq as nat));
            let t2 = t1 + "\",\"seq\":"@ + decimal(e.seq as nat);
            lemma_end(t2, "}"@);
        },
        LaneEvent::DeliveredAck(e) => {
            lemma_start("{\"type\":\"DeliveredAck\",\"message_id\":\""@, escaped(e.message_id@));
            let t1 = "{\"type\":\"DeliveredAck\",\"message_id\":\""@ + escaped(e.message_id@);
            lemma_pair(t1, "\",\"from_user\":\""@, escaped(e.from_user@));
            let t2 = t1 + "\",\"from_user\":\""@ + escaped(e.from_user@);
            lemma_end(t2, "\"}"@);
        },
        LaneEvent::ReadAck(e) => {
            lemma_start("{\"type\":\"ReadAck\",\"message_id\":\""@, escaped(e.message_id@));
            let t1 = "{\"type\":\"ReadAck\",\"message_id\":\""@ + escaped(e.message_id@);
            lemma_pair(t1, "\",\"from_user\":\""@, escaped(e.from_user@));
            let t2 = t1 + "\",\"from_user\":\""@ + escaped(e.from_user@);
            lemma_end(t2, "\"}"@);
        },
        LaneEvent::GroupAckSummary(e) => {
            lemma_start("{\"type\":\"GroupAckSummary\",\"message_id\":\""@, escaped(e.message_id@));
            let t1 = "{\"type\":\"GroupAckSummary\",\"message_id\":\""@ + escaped(e.message_id@);
            lemma_pair(t1, "\",\"group_id\":\""@, escaped(e.group_id@));
            let t2 = t1 + "\",\"group_id\":\""@ + escaped(e.group_id@);
            lemma_pair(t2, "\",\"member_count\":"@, decimal(e.member_count as nat));
            let t3 = t2 + "\",\"member_count\":"@ + decimal(e.member_count as nat);
            lemma_end(t3, "}"@);
        },
        LaneEvent::Presence(e) => {
            lemma_start("{\"type\":\"Presence\",\"user_id\":\""@, escaped(e.user_id@));
            let t1 = "{\"type\":\"Presence\",\"user_id\":\""@ + escaped(e.user_id@);
            lemma_pair(t1, "\",\"kind\":"@, decimal_int(e.kind as int));
            let t2 = t1 + "\",\"kind\":"@ + decimal_int(e.kind as int);
            lemma_pair(t2, ",\"last_seen\":"@, decimal(e.last_seen as nat));
            let t3 = t2 + ",\"last_seen\":"@ + decimal(e.last_seen as nat);
            lemma_end(t3, "}"@);
        },
        LaneEvent::GroupMessage(e) => {
            lemma_start("{\"type\":\"GroupMessage\",\"message_id\":\""@, escaped(e.message_id@));
            let t1 = "{\"type\":\"GroupMessage\",\"message_id\":\""@ + escaped(e.message_id@);
            lemma_pair(t1, "\",\"from_user\":\""@, escaped(e.from_user@));
            let t2 = t1 + "\",\"from_user\":\""@ + escaped(e.from_user@);
            lemma_pair(t2, "\",\"group_id\":\""@, escaped(e.group_id@));
            let t3 = t2 + "\",\"group_id\":\""@ + escaped(e.group_id@);
            lemma_pair(t3, "\",\"body_hex\":\""@, hex_text(e.body@));
            let t4 = t3 + "\",\"body_hex\":\""@ + hex_text(e.body@);
            lemma_end(t4, "\"}"@);
        },
        LaneEvent::GroupEvent(e) => {
            lemma_start("{\"type\":\"GroupEvent\",\"group_id\":\""@, escaped(e.group_id@));
            let t1 = "{\"type\":\"GroupEvent\",\"group_id\":\""@ + escaped(e.group_id@);
            lemma_pair(t1, "\",\"op\":"@, decimal_int(e.op as int));
            let t2 = t1 + "\",\"op\":"@ + decimal_int(e.op as int);
            lemma_pair(t2, ",\"version\":"@, decimal(e.version as nat));
            let t3 = t2 + ",\"version\":"@ + decimal(e.version as nat);
            lemma_end(t3, "}"@);
        },
        LaneEvent::MediaStart(e) => {
            lemma_start("{\"type\":\"MediaStart\",\"media_id\":\""@, escaped(e.media_id@));
            let t1 = "{\"type\":\"MediaStart\",\"media_id\":\""@ + escaped(e.media_id@);
            lemma_pair(t1, "\",\"file_name\":\""@, escaped(e.file_name@));
            let t2 = t1 + "\",\"file_name\":\""@ + escaped(e.file_name@);
            lemma_pair(t2, "\",\"total_size\":"@, decimal(e.total_size as nat));
            let t3 = t2 + "\",\"total_size\":"@ + decimal(e.total_size as nat);
            lemma_end(t3, "}"@);
        },
        LaneEvent::MediaChunk(e) => {
            lemma_start("{\"type\":\"MediaChunk\",\"media_id\":\""@, escaped(e.media_id@));
            let t1 = "{\"type\":\"MediaChunk\",\"media_id\":\""@ + escaped(e.media_id@);
            lemma_pair(t1, "\",\"offset\":"@, decimal(e.offset as nat));
            let t2 = t1 + "\",\"offset\":"@ + decimal(e.offset as nat);
            lemma_pair(t2, ",\"last\":"@, bool_text(e.last));
            let t3 = t2 + ",\"last\":"@ + bool_text(e.last);
            lemma_end(t3, "}"@);
        },
        LaneEvent::MediaAck(e) => {
            lemma_start("{\"type\":\"MediaAck\",\"media_id\":\""@, escaped(e.media_id@));
            let t1 = "{\"type\":\"MediaAck\",\"media_id\":\""@ + escaped(e.media_id@);
            lemma_pair(t1, "\",\"ok\":"@, bool_text(e.ok));
            let t2 = t1 + "\",\"ok\":"@ + bool_text(e.ok);
            lemma_pair(t2, ",\"complete\":"@, bool_text(e.complete));
            let t3 = t2 + ",\"complete\":"@ + bool_text(e.complete);
            lemma_pair(t3, ",\"received_bytes\":"@, decimal(e.received_bytes as nat));
            let t4 = t3 + ",\"received_bytes\":"@ + decimal(e.received_bytes as nat);
            lemma_end(t4, "}"@);
        },
        LaneEvent::KeyBundle(e) => {
            lemma_start("{\"type\":\"KeyBundle\",\"user_id\":\""@, escaped(e.user_id@));
            let t1 = "{\"type\":\"KeyBundle\",\"user_id\":\""@ + escaped(e.user_id@);
            lemma_pair(t1, "\",\"device_id\":\""@, escaped(e.device_id@));
            let t2 = t1 + "\",\"device_id\":\""@ + escaped(e.device_id@);
            lemma_pair(t2, "\",\"found\":"@, bool_text(e.found));
            let t3 = t2 + "\",\"found\":"@ + bool_text(e.found);
            lemma_end(t3, "}"@);
        },
        LaneEvent::ProtocolError(e) => {
            lemma_start("{\"type\":\"ProtocolError\",\"code\":"@, decimal_int(e.code as int));
            let t1 = "{\"type\":\"ProtocolError\",\"code\":"@ + decimal_int(e.code as int);
            lemma_pair(t1, ",\"detail\":\""@, escaped(e.detail@));
            let t2 = t1 + ",\"detail\":\""@ + escaped(e.detail@);
            lemma_end(t2, "\"}"@);
        },
        LaneEvent::Disconnected { reason } => {
            lemma_start("{\"type\":\"Disconnected\",\"reason\":\""@, escaped(reason@));
            let t1 = "{\"type\":\"Disconnected\",\"reason\":\""@ + escaped(reason@);
            lemma_end(t1, "\"}"@);
        },
        LaneEvent::ReplacedByNewSession => {},
        LaneEvent::Pong { seq } => {
            lemma_start("{\"type\":\"Pong\",\"seq\":"@, decimal(seq as nat));
            let t1 = "{\"type\":\"Pong\",\"seq\":"@ + decimal(seq as nat);
            lemma_end(t1, "}"@);
        },
    }
}

/// The short form of an event names its kind and holds the members that the kind
/// is known by; one of another kind is shown as given.
pub proof fn law_short_json_holds_the_event(ev: LaneEvent, debug: Seq<char>)
    ensures
        match ev {
            LaneEvent::LoginAck(e) => {
                &&& holds(short_json_text(ev, debug), "{\"type\":\"LoginAck\",\"session_id\":\""@ + e.session_id@)
                &&& holds(short_json_text(ev, debug), "\",\"ok\":"@ + (if e.ok {
                        "true"@
                    } else {
                        "false"@
                    }))
            },
            LaneEvent::SyncComplete(e) => {
                &&& holds(short_json_text(ev, debug), "{\"type\":\"SyncComplete\",\"latest_seq\":"@ + decimal(e.latest_seq as nat))
            },
            LaneEvent::ChatMessage(e) => {
                &&& holds(short_json_text(ev, debug), "{\"type\":\"ChatMessage\",\"message_id\":\""@ + e.message_id@)
                &&& holds(short_json_text(ev, debug), "\",\"from_user\":\""@ + e.from_user@)
                &&& holds(short_json_text(ev, debug), "\",\"seq\":"@ + decimal(e.seq as nat))
            },
            LaneEvent::ServerAck(e) => {
                &&& holds(short_json_text(ev, debug), "{\"type\":\"ServerAck\",\"message_id\":\""@ + e.message_id@)
                &&& holds(short_json_text(ev, debug), "\",\"seq\":"@ + decimal(e.seq as nat))
            },
            LaneEvent::DeliveredAck(e) => {
                &&& holds(short_json_text(ev, debug), "{\"type\":\"DeliveredAck\",\"message_id\":\""@ + e.message_id@)
            },
            LaneEvent::ReadAck(e) => {
                &&& holds(short_json_text(ev, debug), "{\"type\":\"ReadAck\",\"message_id\":\""@ + e.message_id@)
            },
            LaneEvent::GroupMessage(e) => {
                &&& holds(short_json_text(ev, debug), "{\"type\":\"GroupMessage\",\"message_id\":\""@ + e.message_id@)
                &&& holds(short_json_text(ev, debug), "\",\"group_id\":\""@ + e.group_id@)
            },
            LaneEvent::GroupAckSummary(e) => {
                &&& holds(short_json_text(ev, debug), "{\"type\":\"GroupAckSummary\",\"message_id\":\""@ + e.message_id@)
                &&& holds(short_json_text(ev, debug), "\",\"member_count\":"@ + decimal(e.member_count as nat))
            },
            LaneEvent::Presence(e) => {
                &&& holds(short_json_text(ev, debug), "{\"type\":\"Presence\",\"user_id\":\""@ + e.user_id@)
                &&& holds(short_json_text(ev, debug), "\",\"kind\":"@ + decimal_int(e.kind as int))
            },
            LaneEvent::ReplacedByNewSession => {
                &&& short_json_text(ev, debug) == "{\"type\":\"ReplacedByNewSession\"}"@
            },
            LaneEvent::Disconnected { reason } => {
                &&& holds(short_json_text(ev, debug), "{\"type\":\"Disconnected\",\"reason\":\""@ + reason@)
            },
            _ => {
                &&& holds(short_json_text(ev, debug), "{\"type\":\"Other\",\"debug\":\""@ + debug)
            },
        },
{
    match ev {
        LaneEvent::LoginAck(e) => {
            lemma_start("{\"type\":\"LoginAck\",\"session_id\":\""@, e.session_id@);
            let t1 = "{\"type\":\"LoginAck\",\"session_id\":\""@ + e.session_id@;
            lemma_pair(t1, "\",\"ok\":"@, bool_text(e.ok));
            let t2 = t1 + "\",\"ok\":"@ + bool_text(e.ok);
            lemma_end(t2, "}"@);
        },
        LaneEvent::SyncComplete(e) => {
            lemma_start("{\"type\":\"SyncComplete\",\"latest_seq\":"@, decimal(e.latest_seq as nat));
            let t1 = "{\"type\":\"SyncComplete\",\"latest_seq\":"@ + decimal(e.latest_seq as nat);
            lemma_end(t1, "}"@);
        },
        LaneEvent::ChatMessage(e) => {
            lemma_start("{\"type\":\"ChatMessage\",\"message_id\":\""@, e.message_id@);
            let t1 = "{\"type\":\"ChatMessage\",\"message_id\":\""@ + e.message_id@;
            lemma_pair(t1, "\",\"from_user\":\""@, e.from_user@);
            let t2 = t1 + "\",\"from_user\":\""@ + e.from_user@;
            lemma_pair(t2, "\",\"seq\":"@, decimal(e.seq as nat));
            let t3 = t2 + "\",\"seq\":"@ + decimal(e.seq as nat);
            lemma_end(t3, "}"@);
        },
        LaneEvent::ServerAck(e) => {
            lemma_start("{\"type\":\"ServerAck\",\"message_id\":\""@, e.message_id@);
            let t1 = "{\"type\":\"ServerAck\",\"message_id\":\""@ + e.message_id@;
            lemma_pair(t1, "\",\"seq\":"@, decimal(e.seq as nat));
            let t2 = t1 + "\",\"seq\":"@ + decimal(e.seq as nat);
            lemma_end(t2, "}"@);
        },
        LaneEvent::DeliveredAck(e) => {
            lemma_start("{\"type\":\"DeliveredAck\",\"message_id\":\""@, e.message_id@);
            let t1 = "{\"type\":\"DeliveredAck\",\"message_id\":\""@ + e.message_id@;
            lemma_end(t1, "\"}"@);
        },
        LaneEvent::ReadAck(e) => {
            lemma_start("{\"type\":\"ReadAck\",\"message_id\":\""@, e.message_id@);
            let t1 = "{\"type\":\"ReadAck\",\"message_id\":\""@ + e.message_id@;
            lemma_end(t1, "\"}"@);
        },
        LaneEvent::GroupMessage(e) => {
            lemma_start("{\"type\":\"GroupMessage\",\"message_id\":\""@, e.message_id@);
            let t1 = "{\"type\":\"GroupMessage\",\"message_id\":\""@ + e.message_id@;
            lemma_pair(t1, "\",\"group_id\":\""@, e.group_id@);
            let t2 = t1 + "\",\"group_id\":\""@ + e.group_id@;
            lemma_end(t2, "\"}"@);
        },
        LaneEvent::GroupAckSummary(e) => {
            lemma_start("{\"type\":\"GroupAckSummary\",\"message_id\":\""@, e.message_id@);
            let t1 = "{\"type\":\"GroupAckSummary\",\"message_id\":\""@ + e.message_id@;
            lemma_pair(t1, "\",\"member_count\":"@, decimal(e.member_count as nat));
            let t2 = t1 + "\",\"member_count\":"@ + decimal(e.member_count as nat);
            lemma_end(t2, "}"@);
        },
        LaneEvent::Presence(e) => {
            lemma_start("{\"type\":\"Presence\",\"user_id\":\""@, e.user_id@);
            let t1 = "{\"type\":\"Presence\",\"user_id\":\""@ + e.user_id@;
            lemma_pair(t1, "\",\"kind\":"@, decimal_int(e.kind as int));
            let t2 = t1 + "\",\"kind\":"@ + decimal_int(e.kind as int);
            lemma_end(t2, "}"@);
        },
        LaneEvent::ReplacedByNewSession => {},
        LaneEvent::Disconnected { reason } => {
            lemma_start("{\"type\":\"Disconnected\",\"reason\":\""@, reason@);
            let t1 = "{\"type\":\"Disconnected\",\"reason\":\""@ + reason@;
            lemma_end(t1, "\"}"@);
        },
        _ => {
            lemma_start("{\"type\":\"Other\",\"debug\":\""@, debug);
            lemma_end("{\"type\":\"Other\",\"debug\":\""@ + debug, "\"}"@);
        },
    }
}

/// Escaping goes character by character: a plain character stands for itself, a
/// quote and a backslash get one in front, and a control character is written
/// with its code, which can be read back.
pub proof fn law_escapes_stand_for_their_character(s: Seq<char>, c: char)
    ensures
        escaped(s.push(c)) == escaped(s) + escaped(seq![c]),
        c == '"' || c == '\\' ==> escaped(seq![c]) == seq!['\\', c],
        !(c as u32 <= 0x1f || 0x7f <= c as u32 <= 0x9f) && c != '"' && c != '\\' ==> escaped(
            seq![c],
        ) == seq![c],
        c as u32 <= 0x1f || 0x7f <= c as u32 <= 0x9f ==> escaped(seq![c])[0] == '\\',
        (c as u32 <= 0x1f || 0x7f <= c as u32 <= 0x9f) && c != '\n' && c != '\r' && c != '\t' ==> {
            let n = (c as u32) as nat;
            escaped(seq![c]) == seq!['\\', 'u', '0', '0', hex_char(n / 16), hex_char(n % 16)]
        },
{
    assert(s.push(c).drop_last() =~= s);
    assert(seq![c].drop_last() =~= Seq::<char>::empty());
    assert(escaped(Seq::<char>::empty()) =~= Seq::<char>::empty());
    assert(escaped(seq![c]) =~= escaped_char(c));
}

} // verus!
