use lidar_clustering_hdl::{parse_bit_widths, NumberError, SignatureError};

#[test]
fn widths_of_a_kernel_signature() {
    let sig = "function [47:0] kernel_segmentation_step(input wire [163:0] arg_0, input wire [48:0] arg_1, input wire [9:0] arg_2);";
    assert_eq!(parse_bit_widths(sig), Ok(vec![48, 164, 49, 10]));
}

#[test]
fn widths_allow_padding_plus_sign_and_reversed_ranges() {
    assert_eq!(parse_bit_widths("[ 31 : 0 ]"), Ok(vec![32]));
    assert_eq!(parse_bit_widths("[\u{a0}7:\t+0\n]"), Ok(vec![8]));
    assert_eq!(parse_bit_widths("[0:7]"), Ok(vec![1]));
    assert_eq!(parse_bit_widths("[5:5]"), Ok(vec![1]));
}

#[test]
fn ranges_without_colon_are_skipped() {
    assert_eq!(parse_bit_widths("a[3] b[2:1] c[]"), Ok(vec![2]));
    assert_eq!(parse_bit_widths(""), Ok(vec![]));
    assert_eq!(parse_bit_widths("no brackets ] at all"), Ok(vec![]));
}

#[test]
fn missing_close_bracket_is_an_error() {
    assert_eq!(parse_bit_widths("[7:0] [3:0"), Err(SignatureError::MissingCloseBracket));
}

#[test]
fn bad_bounds_are_errors() {
    assert_eq!(
        parse_bit_widths("[x:0]"),
        Err(SignatureError::InvalidNumber(NumberError::InvalidDigit))
    );
    assert_eq!(
        parse_bit_widths("[7:]"),
        Err(SignatureError::InvalidNumber(NumberError::Empty))
    );
    assert_eq!(
        parse_bit_widths("[  :0]"),
        Err(SignatureError::InvalidNumber(NumberError::Empty))
    );
    assert_eq!(
        parse_bit_widths("[-1:0]"),
        Err(SignatureError::InvalidNumber(NumberError::InvalidDigit))
    );
    assert_eq!(
        parse_bit_widths("[+:0]"),
        Err(SignatureError::InvalidNumber(NumberError::InvalidDigit))
    );
    assert_eq!(
        parse_bit_widths("[99999999999999999999999:0]"),
        Err(SignatureError::InvalidNumber(NumberError::PosOverflow))
    );
    // the value passes usize::MAX before the stray letter is reached
    assert_eq!(
        parse_bit_widths("[99999999999999999999x:0]"),
        Err(SignatureError::InvalidNumber(NumberError::PosOverflow))
    );
    // the msb is read before the lsb
    assert_eq!(
        parse_bit_widths("[x:99999999999999999999999]"),
        Err(SignatureError::InvalidNumber(NumberError::InvalidDigit))
    );
    assert_eq!(
        parse_bit_widths("[18446744073709551615:1]"),
        Ok(vec![18446744073709551615usize])
    );
    // the first error stops the reading
    assert_eq!(
        parse_bit_widths("[a:0] [3:0"),
        Err(SignatureError::InvalidNumber(NumberError::InvalidDigit))
    );
}
