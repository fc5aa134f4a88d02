use kernel::bdf::{
    expect, get, keyword, parse_bdf, parse_hex_u32, parse_i64, split, split_lines, values,
    BdfError, Keyword,
};
use kernel::font::{get_char, BoundingBox};

const HEADER: &str = "STARTFONT 2.1\n\
FONT -misc-test\n\
SIZE 8 75 75\n\
FONTBOUNDINGBOX 8 8 0 -2\n\
STARTPROPERTIES 2\n\
FONT_ASCENT 6\n\
FONT_DESCENT 2\n\
ENDPROPERTIES\n";

const CHAR_SPACE: &str = "STARTCHAR space\n\
ENCODING 32\n\
SWIDTH 500 0\n\
DWIDTH 8 0\n\
BBX 8 8 0 -2\n\
BITMAP\n\
00\n00\n00\n00\n00\n00\n00\n00\n\
ENDCHAR\n";

const CHAR_A: &str = "STARTCHAR A\n\
ENCODING 65\n\
SWIDTH 500 0\n\
DWIDTH 8 0\n\
BBX 6 7 1 -1\n\
BITMAP\n\
18\n24\n42\n7E\n42\n42\n42\n\
ENDCHAR\n";

fn sample() -> String {
    format!("{}CHARS 2\n{}{}ENDFONT\n", HEADER, CHAR_SPACE, CHAR_A)
}

fn parse(s: &str) -> Result<kernel::font::Font, BdfError> {
    parse_bdf(s.as_bytes())
}

#[test]
fn parses_a_small_font() {
    let font = parse(&sample()).unwrap();
    assert_eq!(font.0, BoundingBox(8, 8, 0, -2));
    assert_eq!(font.1.len(), 2);
    assert_eq!(font.1[0].0, 32);
    assert_eq!(font.1[0].1, BoundingBox(8, 8, 0, -2));
    assert_eq!(font.1[0].2, vec![0; 8]);
    assert_eq!(font.1[1].0, 65);
    assert_eq!(font.1[1].1, BoundingBox(6, 7, 1, -1));
    assert_eq!(font.1[1].2, vec![0x18, 0x24, 0x42, 0x7E, 0x42, 0x42, 0x42]);
    let a = get_char(&font, 'A').unwrap();
    assert_eq!(a.char(), 'A');
}

#[test]
fn parses_a_font_with_crlf_line_ends() {
    let crlf = sample().replace('\n', "\r\n");
    let font = parse(&crlf).unwrap();
    assert_eq!(font.1.len(), 2);
    assert_eq!(font.1[1].2[3], 0x7E);
}

#[test]
fn parses_a_font_without_characters() {
    let font = parse(&format!("{}CHARS 0\n", HEADER)).unwrap();
    assert_eq!(font.0, BoundingBox(8, 8, 0, -2));
    assert!(font.1.is_empty());
}

#[test]
fn empty_file_ends_unexpectedly() {
    assert_eq!(parse("").err(), Some(BdfError::UnexpectedEnd));
}

#[test]
fn wrong_first_line_is_unrecognized() {
    assert_eq!(parse("STARTFONT 2.2\n").err(), Some(BdfError::UnrecognizedFont));
    assert_eq!(parse(&sample().replacen("STARTFONT 2.1", "STARTFONT 2.1 ", 1)).err(), Some(BdfError::UnrecognizedFont));
}

#[test]
fn truncated_header_ends_unexpectedly() {
    assert_eq!(parse("STARTFONT 2.1\nFONT x\n").err(), Some(BdfError::UnexpectedEnd));
    assert_eq!(parse(HEADER).err(), Some(BdfError::UnexpectedEnd));
}

#[test]
fn line_without_space_fails_to_split() {
    let s = sample().replace("FONT -misc-test", "FONT");
    assert_eq!(parse(&s).err(), Some(BdfError::SplitFailed));
}

#[test]
fn line_with_wrong_name() {
    let s = sample().replace("SIZE 8 75 75", "SIZES 8 75 75");
    assert_eq!(parse(&s).err(), Some(BdfError::WrongName));
}

#[test]
fn value_that_is_not_a_number() {
    let s = sample().replace("FONTBOUNDINGBOX 8 8 0 -2", "FONTBOUNDINGBOX 8 x 0 -2");
    assert_eq!(parse(&s).err(), Some(BdfError::BadNumber));
    let s = sample().replace("FONTBOUNDINGBOX 8 8 0 -2", "FONTBOUNDINGBOX 8  8 0 -2");
    assert_eq!(parse(&s).err(), Some(BdfError::BadNumber));
}

#[test]
fn bounding_box_with_too_few_values() {
    let s = sample().replace("FONTBOUNDINGBOX 8 8 0 -2", "FONTBOUNDINGBOX 8 8 0");
    assert_eq!(parse(&s).err(), Some(BdfError::MissingValue));
}

#[test]
fn huge_property_count_overflows() {
    let s = sample().replace("STARTPROPERTIES 2", "STARTPROPERTIES -1");
    assert_eq!(parse(&s).err(), Some(BdfError::PropertyCountOverflow));
}

#[test]
fn negative_character_count() {
    let s = format!("{}CHARS -1\n", HEADER);
    assert_eq!(parse(&s).err(), Some(BdfError::NegativeCharCount));
}

#[test]
fn character_of_another_width_is_not_monospace() {
    let s = sample().replacen("DWIDTH 8 0", "DWIDTH 9 0", 1);
    assert_eq!(parse(&s).err(), Some(BdfError::NotMonospace));
}

#[test]
fn bitmap_keyword_is_required() {
    let s = sample().replacen("BITMAP", "BITMAPS", 1);
    assert_eq!(parse(&s).err(), Some(BdfError::ExpectedBitmap));
}

#[test]
fn bitmap_rows_are_hexadecimal() {
    let s = sample().replace("7E", "7G");
    assert_eq!(parse(&s).err(), Some(BdfError::BadBitmapRow));
}

#[test]
fn character_must_end_after_its_rows() {
    let s = sample().replace("BBX 6 7 1 -1", "BBX 6 6 1 -1");
    assert_eq!(parse(&s).err(), Some(BdfError::ExpectedEndChar));
}

#[test]
fn more_characters_than_the_file_holds() {
    let s = format!("{}CHARS 3\n{}{}", HEADER, CHAR_SPACE, CHAR_A);
    assert_eq!(parse(&s).err(), Some(BdfError::UnexpectedEnd));
}

#[test]
fn lines_split_like_str_lines() {
    assert_eq!(split_lines(b"a\r\nbc\n\nd"), vec![(0, 1), (3, 5), (6, 6), (7, 8)]);
    assert_eq!(split_lines(b"abc\n"), vec![(0, 3)]);
    assert_eq!(split_lines(b"\n"), vec![(0, 0)]);
    assert_eq!(split_lines(b""), Vec::<(usize, usize)>::new());
    assert_eq!(split_lines(b"\r"), vec![(0, 1)]);
}

#[test]
fn decimal_numbers_as_i64_reads_them() {
    let b = b"-42 +7 9223372036854775807 -9223372036854775808 9223372036854775808 - 1x";
    assert_eq!(parse_i64(b, 0, 3), Some(-42));
    assert_eq!(parse_i64(b, 4, 6), Some(7));
    assert_eq!(parse_i64(b, 7, 26), Some(i64::MAX));
    assert_eq!(parse_i64(b, 27, 47), Some(i64::MIN));
    assert_eq!(parse_i64(b, 48, 67), None);
    assert_eq!(parse_i64(b, 68, 69), None);
    assert_eq!(parse_i64(b, 70, 72), None);
    assert_eq!(parse_i64(b, 0, 0), None);
}

#[test]
fn hexadecimal_rows_as_u32_reads_them() {
    let b = b"7E ff +A0 FFFFFFFF 100000000 -1 g";
    assert_eq!(parse_hex_u32(b, 0, 2), Some(0x7E));
    assert_eq!(parse_hex_u32(b, 3, 5), Some(0xFF));
    assert_eq!(parse_hex_u32(b, 6, 9), Some(0xA0));
    assert_eq!(parse_hex_u32(b, 10, 18), Some(u32::MAX));
    assert_eq!(parse_hex_u32(b, 19, 28), None);
    assert_eq!(parse_hex_u32(b, 29, 31), None);
    assert_eq!(parse_hex_u32(b, 32, 33), None);
}

#[test]
fn values_split_at_single_spaces() {
    let b = b"8 8 0 -2";
    assert_eq!(values(b, 0, b.len()), Some(vec![8, 8, 0, -2]));
    assert_eq!(values(b"1  2", 0, 4), None);
    assert_eq!(values(b"", 0, 0), None);
}

#[test]
fn split_gives_name_end_and_values() {
    let b = b"BBX 8 8 0 -2";
    assert_eq!(split(b, 0, b.len()), Ok((3, vec![8, 8, 0, -2])));
    assert_eq!(split(b"BITMAP", 0, 6), Err(BdfError::SplitFailed));
    assert_eq!(split(b"X 1 a", 0, 5), Err(BdfError::BadNumber));
}

#[test]
fn get_and_expect_check_the_line_name() {
    let b = b"ENCODING 65\nSWIDTH 500 0\nBITMAP";
    let lines = split_lines(b);
    assert_eq!(get(b, &lines, 0, &keyword(Keyword::Encoding)), Ok(vec![65]));
    assert_eq!(get(b, &lines, 1, &keyword(Keyword::Encoding)), Err(BdfError::WrongName));
    assert_eq!(get(b, &lines, 2, &keyword(Keyword::Bitmap)), Err(BdfError::SplitFailed));
    assert_eq!(get(b, &lines, 3, &keyword(Keyword::Bitmap)), Err(BdfError::UnexpectedEnd));
    assert_eq!(expect(b, &lines, 1, &keyword(Keyword::SWidth)), Ok(()));
    assert_eq!(expect(b, &lines, 1, &keyword(Keyword::DWidth)), Err(BdfError::WrongName));
    assert_eq!(expect(b, &lines, 5, &keyword(Keyword::DWidth)), Err(BdfError::UnexpectedEnd));
}

#[test]
fn keywords_are_their_ascii_bytes() {
    assert_eq!(keyword(Keyword::StartFont), b"STARTFONT 2.1".to_vec());
    assert_eq!(keyword(Keyword::FontBoundingBox), b"FONTBOUNDINGBOX".to_vec());
    assert_eq!(keyword(Keyword::EndChar), b"ENDCHAR".to_vec());
    assert_eq!(keyword(Keyword::Bbx), b"BBX".to_vec());
}
