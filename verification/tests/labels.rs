use std::collections::hash_map::DefaultHasher;
use std::hash::{Hash, Hasher};

use lane_switchboards::messenger::metrics::{hash_user_id, user_label};

#[test]
fn label_is_the_hash_in_sixteen_digits() {
    assert_eq!(user_label(0), "u0000000000000000");
    assert_eq!(user_label(0x0123_4567_89ab_cdef), "u0123456789abcdef");
    assert_eq!(user_label(u64::MAX), "uffffffffffffffff");
    for user in ["", "alice", "b\u{f6}b"] {
        let mut h = DefaultHasher::new();
        user.hash(&mut h);
        assert_eq!(hash_user_id(user), format!("u{:016x}", h.finish()));
    }
    assert_ne!(hash_user_id("alice"), hash_user_id("bob"));
}
