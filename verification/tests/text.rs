use solana_validator::text::{append_decimal, decimal_text};

#[test]
fn decimal_text_matches_to_string() {
    for n in [0u64, 7, 10, 99, 100, 12345, u64::MAX] {
        assert_eq!(decimal_text(n), n.to_string());
    }
    let mut s = String::from("n=");
    append_decimal(&mut s, 4200);
    assert_eq!(s, "n=4200");
}
