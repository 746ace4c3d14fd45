use gateway_core::api_key::{api_key_from, generate_api_key};

fn is_lower_hex(c: char) -> bool {
    c.is_ascii_digit() || ('a'..='f').contains(&c)
}

#[test]
fn generated_key_has_the_shape_of_a_key() {
    for _ in 0..50 {
        let key = generate_api_key();
        assert_eq!(key.len(), 35);
        assert!(key.starts_with("sk-"));
        assert!(key[3..].chars().all(is_lower_hex), "{}", key);
        // a version 4 UUID in simple form
        assert_eq!(&key[15..16], "4");
        assert!(matches!(&key[19..20], "8" | "9" | "a" | "b"));
    }
}

#[test]
fn generated_keys_differ() {
    assert_ne!(generate_api_key(), generate_api_key());
}

#[test]
fn api_key_from_prefixes_the_digits() {
    assert_eq!(api_key_from("0123"), "sk-0123");
    assert_eq!(api_key_from(""), "sk-");
}
