use sovright_p2p_ingress::text::{push_decimal, push_signed_decimal};

#[test]
fn numerals_are_those_of_the_standard_library() {
    for n in [0u64, 7, 10, 99, 100, 170_160, u64::MAX] {
        let mut out = "=".to_string();
        push_decimal(&mut out, n);
        assert_eq!(out, format!("={n}"));
    }
    for n in [0i64, -1, 42, i64::MIN, i64::MAX] {
        let mut out = String::new();
        push_signed_decimal(&mut out, n);
        assert_eq!(out, n.to_string());
    }
}
