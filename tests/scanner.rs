use tello::assembler::FrameAssembler;
use tello::decoding::check_for_valid_packet;

#[test]
fn two_start_codes_give_the_span_between_them() {
    let data = [0u8, 0, 1, 0x65, 0x88, 0x84, 0, 0, 1, 0x41];
    assert_eq!(check_for_valid_packet(&data), Some((0, 6)));
}

#[test]
fn adjacent_start_codes_give_an_empty_payload() {
    let data = [0u8, 0, 1, 0, 0, 1];
    assert_eq!(check_for_valid_packet(&data), Some((0, 3)));
}

#[test]
fn leading_bytes_before_the_first_start_code_are_skipped() {
    let data = [7u8, 9, 0, 0, 1, 0x67, 0, 0, 1, 0x68];
    assert_eq!(check_for_valid_packet(&data), Some((2, 6)));
}

#[test]
fn one_start_code_is_not_a_unit() {
    let data = [0u8, 0, 1, 0x65, 0x10, 0x20];
    assert_eq!(check_for_valid_packet(&data), None);
}

#[test]
fn no_start_code_is_not_a_unit() {
    assert_eq!(check_for_valid_packet(&[]), None);
    assert_eq!(check_for_valid_packet(&[0u8, 0, 0, 0]), None);
    assert_eq!(check_for_valid_packet(&[0u8, 5, 0, 1]), None);
}

#[test]
fn two_zeros_then_another_byte_are_no_start_code() {
    let data = [0u8, 0, 1, 0x65, 0, 0, 5, 1, 0x33, 0, 0, 7, 1];
    assert_eq!(check_for_valid_packet(&data), None);
}

#[test]
fn four_byte_start_code_is_found_one_byte_in() {
    let data = [0u8, 0, 0, 1, 0x67, 0, 0, 0, 1, 0x68];
    assert_eq!(check_for_valid_packet(&data), Some((1, 6)));
}

#[test]
fn a_one_right_after_a_start_code_counts_again() {
    // A one does not clear the zero count, so `00 00 01 01` holds two.
    let data = [0u8, 0, 1, 1];
    assert_eq!(check_for_valid_packet(&data), Some((0, 1)));
}

#[test]
fn unit_split_across_two_datagrams() {
    let mut buffer = FrameAssembler::new();
    buffer.push(&[0, 0, 1, 0x65, 0x11, 0x22]);
    assert_eq!(buffer.take_unit(), None);
    assert_eq!(buffer.buffered(), &[0, 0, 1, 0x65, 0x11, 0x22]);
    buffer.push(&[0x33, 0x44, 0, 0, 1, 0x41, 0x55]);
    assert_eq!(buffer.take_unit(), Some(vec![0, 0, 1, 0x65, 0x11, 0x22, 0x33, 0x44]));
    assert_eq!(buffer.buffered(), &[0, 0, 1, 0x41, 0x55]);
    assert_eq!(buffer.take_unit(), None);
    assert_eq!(buffer.buffered(), &[0, 0, 1, 0x41, 0x55]);
}

#[test]
fn units_come_out_one_at_a_time() {
    let mut buffer = FrameAssembler::new();
    buffer.push(&[9, 0, 0, 1, 0x67, 0, 0, 1, 0x68, 0, 0, 1, 0x65]);
    assert_eq!(buffer.take_unit(), Some(vec![0, 0, 1, 0x67]));
    assert_eq!(buffer.take_unit(), Some(vec![0, 0, 1, 0x68]));
    assert_eq!(buffer.take_unit(), None);
    assert_eq!(buffer.buffered(), &[0, 0, 1, 0x65]);
}

#[test]
fn empty_datagrams_change_nothing() {
    let mut buffer = FrameAssembler::new();
    buffer.push(&[]);
    assert_eq!(buffer.buffered(), &[] as &[u8]);
    buffer.push(&[0, 0]);
    buffer.push(&[]);
    buffer.push(&[1]);
    assert_eq!(buffer.buffered(), &[0, 0, 1]);
    assert_eq!(buffer.take_unit(), None);
}
