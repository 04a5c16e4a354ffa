//! Object naming in an S3 bucket.

use pop_mail_server::storage::s3::{
    generate_uidl, message_id, message_key, trim_end_matches, trim_matches,
};

#[test]
fn keys_join_the_prefix_and_the_id() {
    assert_eq!(message_key("", "m1"), "m1");
    assert_eq!(message_key("inbox", "m1"), "inbox/m1");
    assert_eq!(message_key("inbox/", "m1"), "inbox/m1");
    assert_eq!(message_key("inbox//", "m1"), "inbox/m1");
}

#[test]
fn ids_drop_the_prefix() {
    assert_eq!(message_id("inbox", "inbox/m1"), "m1");
    assert_eq!(message_id("inbox/", "inbox/m1"), "m1");
    assert_eq!(message_id("inbox", "other/m1"), "other/m1");
    assert_eq!(message_id("", "m1"), "m1");
    assert_eq!(message_id("", "/m1"), "m1");
    for (prefix, id) in [("inbox", "m1"), ("a/b/", "x.eml"), ("", "plain")] {
        assert_eq!(message_id(prefix, &message_key(prefix, id)), id);
    }
}

#[test]
fn uidl_is_the_etag_or_the_key_digest() {
    assert_eq!(generate_uidl("k", Some("\"abc123\"")), "abc123");
    assert_eq!(generate_uidl("k", Some("abc123")), "abc123");
    assert_eq!(generate_uidl("k", Some("\"\"")), "");
    assert_eq!(generate_uidl("abc", None), "900150983cd24fb0d6963f7d28e17f72");
}

#[test]
fn trimming_one_character() {
    assert_eq!(trim_end_matches("a//", '/'), "a");
    assert_eq!(trim_end_matches("/a", '/'), "/a");
    assert_eq!(trim_matches("\"\"x\"", '"'), "x");
    assert_eq!(trim_matches("x", '"'), "x");
}
