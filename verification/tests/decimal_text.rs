use alexdb::decimal::decimal_string;
use alexdb::num::Num;
use alexdb::types::{str_of_ctype, CompressType};

#[test]
fn decimal_text_matches_to_string() {
    for n in [0usize, 7, 10, 99, 100, 1234567890, usize::MAX] {
        assert_eq!(decimal_string(n), n.to_string());
    }
}

#[test]
fn strategy_names() {
    assert_eq!(str_of_ctype(CompressType::Uncompressed), "none");
    assert_eq!(str_of_ctype(CompressType::RunLength), "runlen");
    assert_eq!(str_of_ctype(CompressType::BitMap), "bitmap");
    assert_eq!(str_of_ctype(CompressType::Xor), "xor");
}

#[test]
fn number_equality_follows_ieee() {
    let zero = Num(0.0f64.to_bits());
    let neg_zero = Num((-0.0f64).to_bits());
    let nan = Num(f64::NAN.to_bits());
    let one = Num(1.0f64.to_bits());
    assert!(zero.float_eq(&neg_zero));
    assert!(!nan.float_eq(&nan));
    assert!(one.float_eq(&one));
    assert!(!one.float_eq(&zero));
}
