use rabid::encoder::{encoder_diff, encoder_value};

#[test]
fn encoder_diff_simple() {
    let a = 26858;
    let b = 26980;
    assert_eq!(encoder_diff(&b, &a), 26980 - 26858);
    assert_eq!(encoder_diff(&a, &b), 26858 - 26980);
}

#[test]
fn encoder_diff_with_overrun() {
    let a = 0;
    let b = 4294967295;
    assert_eq!(encoder_diff(&a, &b), 1);
    assert_eq!(encoder_diff(&b, &a), -1);
}

#[test]
fn encoder_value_big_endian() {
    let bytes = vec![0x01, 0x02, 0x03, 0x04];
    assert_eq!(encoder_value(&bytes), 0x0102_0304);
    let top = vec![0xff, 0x00, 0x00, 0x01];
    assert_eq!(encoder_value(&top), 0xff00_0001);
}
