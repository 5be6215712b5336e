//! Labels of the metrics.

use crate::text::{hex_char, hex_digit};
use std::collections::hash_map::DefaultHasher;
use std::hash::{Hash, Hasher};
use vstd::prelude::*;
use vstd::std_specs::hash::DefaultHasherAdditionalSpecFns;

verus! {

/// What a hasher holds once a text was hashed into it.
pub uninterp spec fn text_hashed(state: Seq<Seq<u8>>, text: Seq<char>) -> Seq<Seq<u8>>;

/// `str::hash` feeds a text to a hasher; what the hasher then holds depends on
/// what it held and on the text.
#[verifier::external_body]
fn hash_text(h: &mut DefaultHasher, text: &str)
    ensures
        final(h)@ == text_hashed(old(h)@, text@),
{
    text.hash(h)
}

/// The hash of a text by a new hasher.
pub open spec fn text_hash(text: Seq<char>) -> u64 {
    DefaultHasher::spec_finish(text_hashed(Seq::empty(), text))
}

/// Four bits of a number, counted from the top.
pub open spec fn nibble(v: u64, i: int) -> u64 {
    (v >> ((60 - 4 * i) as u64)) & 15
}

/// The sixteen lower-case hexadecimal digits of a number.
pub open spec fn hex16(v: u64) -> Seq<char> {
    Seq::new(16, |i: int| hex_char(nibble(v, i) as nat))
}

/// The label for a user whose id has a hash.
pub fn user_label(hash: u64) -> (s: String)
    ensures
        s@ == "u"@ + hex16(hash),
{
    let mut s: String = "u".to_string();
    let mut i: u64 = 0;
    proof {
        assert("u"@ + hex16(hash).take(0) =~= "u"@);
    }
    while i < 16
        invariant
            i <= 16,
            s@ == "u"@ + hex16(hash).take(i as int),
        decreases 16 - i,
    {
        let shift: u64 = 60 - 4 * i;
        let d: u64 = (hash >> shift) & 15;
        assert(d < 16) by (bit_vector)
            requires
                d == (hash >> shift) & 15,
        ;
        s.push(hex_digit(d as u8));
        proof {
            assert(hex16(hash).take(i as int + 1) =~= hex16(hash).take(i as int).push(
                hex_char(nibble(hash, i as int) as nat),
            ));
            assert(s@ =~= "u"@ + hex16(hash).take(i as int + 1));
        }
        i += 1;
    }
    assert(hex16(hash).take(16) =~= hex16(hash));
    s
}

/// A label that does not show the user's id. The hasher has fixed keys: the
/// label of an id is the same in every process.
pub fn hash_user_id(user_id: &str) -> (s: String)
    ensures
        s@ == "u"@ + hex16(text_hash(user_id@)),
{
    let mut h: DefaultHasher = DefaultHasher::new();
    hash_text(&mut h, user_id);
    user_label(h.finish())
}

} // verus!
