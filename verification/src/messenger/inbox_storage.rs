//! Keys under which messenger state is replicated to a key-value store.

use crate::text::{
    concat3, decimal, decimal_string, digits_value, lemma_decimal_reads_back,
};
use vstd::prelude::*;

verus! {

/// Prefix of inbox entries.
pub const INBOX_KEY_PREFIX: &'static str = "messenger:inbox:";

/// The text with zeros in front, up to a width.
pub open spec fn zero_padded(s: Seq<char>, width: nat) -> Seq<char> {
    if s.len() >= width {
        s
    } else {
        Seq::new((width - s.len()) as nat, |i: int| '0') + s
    }
}

/// The key of an inbox entry: prefix, user, and the number in twenty digits.
pub open spec fn inbox_key_text(user: Seq<char>, seq: u64) -> Seq<char> {
    INBOX_KEY_PREFIX@ + user + ":"@ + zero_padded(decimal(seq as nat), 20)
}

/// The key of an inbox entry.
pub fn inbox_key(user_id: &str, seq: u64) -> (s: String)
    ensures
        s@ == inbox_key_text(user_id@, seq),
{
    let mut s = concat3(INBOX_KEY_PREFIX, user_id, ":");
    let digits = decimal_string(seq);
    let n: usize = digits.as_str().unicode_len();
    let ghost head = s@;
    let mut i: usize = n;
    while i < 20
        invariant
            n <= i,
            n <= 20 ==> i <= 20,
            n > 20 ==> i == n,
            s@ == head + Seq::new((i - n) as nat, |j: int| '0'),
        decreases 20 - i,
    {
        s.push('0');
        assert(s@ =~= head + Seq::new((i + 1 - n) as nat, |j: int| '0'));
        i += 1;
    }
    s.push_str(digits.as_str());
    assert(zero_padded(digits@, 20) =~= Seq::new((i - n) as nat, |j: int| '0') + digits@);
    assert(s@ =~= head + zero_padded(digits@, 20));
    assert(s@ =~= inbox_key_text(user_id@, seq));
    s
}

/// The key of a device's published keys.
pub open spec fn device_key_text(user: Seq<char>, device: Seq<char>) -> Seq<char> {
    "messenger:keys:"@ + user + ":"@ + device
}

/// The key of a device's published keys.
pub fn device_key(user_id: &str, device_id: &str) -> (s: String)
    ensures
        s@ == device_key_text(user_id@, device_id@),
{
    let mut s = concat3("messenger:keys:", user_id, ":");
    s.push_str(device_id);
    s
}

/// The file, below the directory of the store, that holds a device's published
/// keys.
pub fn device_file(user_id: &str, device_id: &str) -> (s: String)
    ensures
        s@ == "keys/"@ + user_id@ + "/"@ + device_id@ + ".json"@,
{
    let mut s = concat3("keys/", user_id, "/");
    s.push_str(device_id);
    s.push_str(".json");
    s
}

/// Messages of one user never share a key: the number can be read back from the
/// end of it, which is always of the same length.
pub proof fn law_inbox_keys_are_apart(user: Seq<char>, a: u64, b: u64)
    ensures
        inbox_key_text(user, a) == inbox_key_text(user, b) <==> a == b,
{
    if inbox_key_text(user, a) == inbox_key_text(user, b) {
        let n = (INBOX_KEY_PREFIX@ + user + ":"@).len() as int;
        let x = zero_padded(decimal(a as nat), 20);
        let y = zero_padded(decimal(b as nat), 20);
        assert(inbox_key_text(user, a).skip(n) =~= x);
        assert(inbox_key_text(user, b).skip(n) =~= y);
        lemma_decimal_reads_back(a as nat);
        lemma_decimal_reads_back(b as nat);
        lemma_padding_adds_nothing(decimal(a as nat), 20);
        lemma_padding_adds_nothing(decimal(b as nat), 20);
    }
}

/// Zeros in front do not change a number.
proof fn lemma_padding_adds_nothing(s: Seq<char>, width: nat)
    requires
        digits_value(s) is Some,
    ensures
        digits_value(zero_padded(s, width)) == digits_value(s),
    decreases width + s.len(),
{
    if s.len() < width {
        lemma_zeros((width - s.len()) as nat);
        lemma_zeros_in_front((width - s.len()) as nat, s);
    }
}

/// Zeros are zero.
proof fn lemma_zeros(n: nat)
    ensures
        digits_value(Seq::new(n, |i: int| '0')) == Some(0nat),
    decreases n,
{
    if n > 0 {
        lemma_zeros((n - 1) as nat);
        assert(Seq::new(n, |i: int| '0').drop_last() =~= Seq::new((n - 1) as nat, |i: int| '0'));
    }
}

/// Zeros in front do not change a number.
proof fn lemma_zeros_in_front(n: nat, s: Seq<char>)
    requires
        digits_value(s) is Some,
    ensures
        digits_value(Seq::new(n, |i: int| '0') + s) == digits_value(s),
    decreases s.len(),
{
    let zeros = Seq::new(n, |i: int| '0');
    lemma_zeros(n);
    if s.len() == 0 {
        assert(zeros + s =~= zeros);
    } else {
        lemma_zeros_in_front(n, s.drop_last());
        assert((zeros + s).drop_last() =~= zeros + s.drop_last());
        assert((zeros + s).last() == s.last());
    }
}

} // verus!
