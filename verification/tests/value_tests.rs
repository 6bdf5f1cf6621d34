use libsurfer::value::{
    concat_values, concat_with_x, concat_with_x_pub, extend_string, extract_bits, VariableValue,
};

fn num(bytes: &[u8]) -> VariableValue {
    VariableValue::BigUint(bytes.to_vec())
}

fn text(s: &str) -> VariableValue {
    VariableValue::String(s.to_string())
}

#[test]
fn extend_string_widens_bit_strings() {
    assert_eq!(extend_string("101", 6), "000101");
    assert_eq!(extend_string("1", 1), "1");
    assert_eq!(extend_string("x1", 4), "xxx1");
    assert_eq!(extend_string("z0", 3), "zz0");
    assert_eq!(extend_string("0", 4), "0000");
}

#[test]
fn extend_string_leaves_other_text() {
    assert_eq!(extend_string("abc", 5), "abc");
    assert_eq!(extend_string("", 4), "");
    assert_eq!(extend_string("1010", 3), "1010");
}

#[test]
fn extract_bits_of_numbers() {
    // 182 = 0b1011_0110; bits [2, 5] are 0b1101.
    assert_eq!(extract_bits(num(&[182]), 8, 2, 5), num(&[13]));
    // 0x1234, bits [4, 11] are 0x23.
    assert_eq!(extract_bits(num(&[0x34, 0x12]), 16, 4, 11), num(&[0x23]));
    assert_eq!(extract_bits(num(&[0xff]), 8, 0, 7), num(&[0xff]));
    assert_eq!(extract_bits(num(&[0x80]), 8, 0, 6), num(&[0]));
}

#[test]
fn extract_bits_of_bit_strings() {
    assert_eq!(extract_bits(text("10x1"), 4, 1, 2), text("0x"));
    assert_eq!(extract_bits(text("1"), 4, 0, 1), text("01"));
    assert_eq!(extract_bits(text("zz10"), 4, 2, 3), text("zz"));
}

#[test]
fn extract_bits_outside_text_gives_unknown_bits() {
    assert_eq!(extract_bits(text("ab"), 4, 0, 1), text("xx"));
    assert_eq!(extract_bits(text("abc"), 5, 1, 2), text("xx"));
}

#[test]
fn extract_bits_above_width_keeps_the_text() {
    assert_eq!(extract_bits(text("01"), 2, 0, 3), text("01"));
}

#[test]
fn concat_values_first_source() {
    assert_eq!(concat_values(None, num(&[5]), 3, 0), num(&[5]));
    assert_eq!(concat_values(None, text("1"), 4, 0), text("0001"));
}

#[test]
fn concat_values_numbers() {
    // 5 | (2 << 3) = 21
    assert_eq!(concat_values(Some(num(&[5])), num(&[2]), 2, 3), num(&[21]));
    assert_eq!(concat_values(Some(num(&[0xff])), num(&[1]), 1, 8), num(&[0xff, 1]));
}

#[test]
fn concat_values_mixed() {
    assert_eq!(concat_values(Some(text("01")), num(&[3]), 4, 2), text("001101"));
    assert_eq!(concat_values(Some(num(&[1])), text("x"), 2, 3), text("xx001"));
    assert_eq!(concat_values(Some(text("10")), text("1"), 3, 2), text("00110"));
}

#[test]
fn concat_with_unknown_bits() {
    assert_eq!(concat_with_x(None, "xx".to_string(), 0), text("xx"));
    assert_eq!(concat_with_x(Some(text("01")), "xxx".to_string(), 2), text("xxx01"));
    assert_eq!(concat_with_x(Some(num(&[2])), "x".to_string(), 4), text("x0010"));
    assert_eq!(concat_with_x_pub(Some(num(&[2])), "x".to_string(), 4), text("x0010"));
}

#[test]
fn split_field_of_bus_gives_sources_back() {
    let low = num(&[0x5]);
    let high = num(&[0x3]);
    let bus = concat_values(Some(concat_values(None, low, 4, 0)), high, 3, 4);
    assert_eq!(bus, num(&[0x35]));
    assert_eq!(extract_bits(bus.clone(), 7, 4, 6), num(&[0x3]));
    assert_eq!(extract_bits(bus, 7, 0, 3), num(&[0x5]));
}

#[test]
fn split_field_of_bit_string_bus_gives_sources_back() {
    let bus = concat_values(Some(text("x1")), text("10"), 3, 2);
    assert_eq!(bus, text("010x1"));
    assert_eq!(extract_bits(bus.clone(), 5, 2, 4), text("010"));
    assert_eq!(extract_bits(bus, 5, 0, 1), text("x1"));
}

#[test]
fn extract_whole_value_gives_it_back() {
    assert_eq!(extract_bits(text("1x0z"), 4, 0, 3), text("1x0z"));
    assert_eq!(extract_bits(num(&[0x2a]), 6, 0, 5), num(&[0x2a]));
}

#[test]
fn first_value_sits_at_its_offset() {
    assert_eq!(concat_values(None, num(&[1]), 1, 3), num(&[8]));
    assert_eq!(concat_values(None, text("1"), 2, 3), text("01000"));
    assert_eq!(concat_with_x(None, "x".to_string(), 2), text("x00"));
}

#[test]
fn short_text_accumulator_is_widened_to_offset() {
    assert_eq!(concat_values(Some(text("1")), num(&[3]), 2, 3), text("11001"));
    assert_eq!(concat_values(Some(text("x")), text("1"), 1, 2), text("10x"));
    assert_eq!(concat_with_x(Some(text("1")), "x".to_string(), 3), text("x001"));
}

#[test]
fn bits_of_a_first_value_come_back_from_its_offset() {
    let bus = concat_values(None, num(&[5]), 3, 4);
    assert_eq!(extract_bits(bus.clone(), 7, 4, 6), num(&[5]));
    assert_eq!(extract_bits(bus, 7, 0, 3), num(&[0]));
}
