use portweave::form::digits_only;
use portweave::ids::uuid_string;
use portweave::text::decimal_string;

#[test]
fn decimal_numerals() {
    assert_eq!(decimal_string(0), "0");
    assert_eq!(decimal_string(7897), "7897");
    assert_eq!(decimal_string(u64::MAX), u64::MAX.to_string());
}

#[test]
fn uuid_text_matches_the_hyphenated_form() {
    for _ in 0..20 {
        let id = uuid::Uuid::new_v4();
        assert_eq!(uuid_string(id.as_u128()), id.to_string());
    }
    assert_eq!(uuid_string(0), uuid::Uuid::nil().to_string());
    assert_eq!(uuid_string(u128::MAX), uuid::Uuid::max().to_string());
}


#[test]
fn port_fields_keep_digits_only() {
    assert_eq!(digits_only("a1b2 ３3".into()), "123");
    assert_eq!(digits_only("".into()), "");
}
