use tokichan::error::{InputError, RequestError};
use tokichan::form::{parse_fields, FormField};
use tokichan::helpers::format_name;

fn text_field(name: &str, data: &[u8]) -> FormField {
    FormField { name: Some(name.to_owned()), data: data.to_vec() }
}

fn png_bytes() -> Vec<u8> {
    let mut v = vec![0x89u8];
    v.extend_from_slice(b"PNG\r\n\x1a\n");
    v.extend_from_slice(b"testdata");
    v
}

#[test]
fn field_round_trip() {
    let png = png_bytes();
    let fields = vec![
        text_field("board", b"b"),
        text_field("op", b"anon"),
        FormField { name: Some("file1".to_owned()), data: png.clone() },
    ];
    let parsed = parse_fields(fields).unwrap();
    assert_eq!(parsed.input.board, "b");
    assert_eq!(parsed.input.op, "anon");
    let expected = format_name(&png, "png");
    assert_eq!(expected, "BUrlfXXlvXS3PqgLddQ7pUHnqPM.png");
    assert_eq!(parsed.input.files, Some(vec![expected.clone()]));
    assert_eq!(parsed.saves.len(), 1);
    assert_eq!(parsed.saves[0].name, expected);
    assert_eq!(parsed.saves[0].data, png);
}

#[test]
fn empty_field_changes_nothing() {
    let with_empty = vec![
        text_field("board", b"b"),
        text_field("subject", b""),
        text_field("files", b""),
        text_field("op", b"anon"),
    ];
    let without = vec![text_field("board", b"b"), text_field("op", b"anon")];
    let a = parse_fields(with_empty).unwrap();
    let b = parse_fields(without).unwrap();
    assert_eq!(a.input.board, b.input.board);
    assert_eq!(a.input.op, b.input.op);
    assert_eq!(a.input.subject, b.input.subject);
    assert_eq!(a.input.files, Some(vec![]));
    assert_eq!(b.input.files, Some(vec![]));
    assert_eq!(a.saves.len(), 0);
}

#[test]
fn sniffed_file_never_lands_in_text() {
    // A PNG payload under a text field name still goes to the file list.
    let png = png_bytes();
    let fields = vec![FormField { name: Some("board".to_owned()), data: png.clone() }];
    let parsed = parse_fields(fields).unwrap();
    assert_eq!(parsed.input.board, "");
    assert_eq!(parsed.input.files, Some(vec![format_name(&png, "png")]));
}

#[test]
fn text_never_lands_in_files() {
    let fields = vec![text_field("body", b"hello there")];
    let parsed = parse_fields(fields).unwrap();
    assert_eq!(parsed.input.body, "hello there");
    assert_eq!(parsed.input.files, Some(vec![]));
    assert_eq!(parsed.saves.len(), 0);
}

#[test]
fn captcha_field_is_kept() {
    let fields = vec![text_field("captcha", b"aB3x")];
    let parsed = parse_fields(fields).unwrap();
    assert_eq!(parsed.input.captcha, "aB3x");
}

#[test]
fn nameless_field_is_missing_key() {
    let fields = vec![FormField { name: None, data: b"x".to_vec() }];
    assert_eq!(parse_fields(fields).unwrap_err(), RequestError::MissingKey);
}

#[test]
fn unknown_field_is_fatal() {
    let fields = vec![text_field("color", b"red")];
    assert_eq!(parse_fields(fields).unwrap_err(), RequestError::UnknownField);
}

#[test]
fn unsniffable_file_slot_reports_its_index() {
    let fields = vec![text_field("file3", b"just text")];
    assert_eq!(
        parse_fields(fields).unwrap_err(),
        RequestError::Input(InputError::Files(3))
    );
}

#[test]
fn parent_takes_multi_digit_ids() {
    let fields = vec![text_field("parent", b"123")];
    let parsed = parse_fields(fields).unwrap();
    assert_eq!(parsed.input.parent, Some(123));
}

#[test]
fn parent_rejects_non_digits() {
    let fields = vec![text_field("parent", b"12x")];
    assert_eq!(parse_fields(fields).unwrap_err(), RequestError::InvalidParent);
}

#[test]
fn parent_rejects_out_of_range_ids() {
    let fields = vec![text_field("parent", b"99999999999")];
    assert_eq!(parse_fields(fields).unwrap_err(), RequestError::InvalidParent);
}

#[test]
fn ill_encoded_text_is_rejected() {
    let fields = vec![FormField { name: Some("body".to_owned()), data: vec![0x68, 0xff] }];
    assert_eq!(parse_fields(fields).unwrap_err(), RequestError::InvalidText);
}

#[test]
fn same_bytes_twice_store_under_one_name() {
    let png = png_bytes();
    let first = parse_fields(vec![FormField {
        name: Some("file1".to_owned()),
        data: png.clone(),
    }])
    .unwrap();
    let second = parse_fields(vec![FormField {
        name: Some("file1".to_owned()),
        data: png.clone(),
    }])
    .unwrap();
    assert_eq!(first.saves[0].name, second.saves[0].name);
    assert_eq!(first.saves[0].data, second.saves[0].data);
}

#[test]
fn file_names_keep_arrival_order() {
    let png = png_bytes();
    let mut gif = b"GIF89a".to_vec();
    gif.extend_from_slice(b"body");
    let fields = vec![
        FormField { name: Some("file1".to_owned()), data: png.clone() },
        FormField { name: Some("file2".to_owned()), data: gif.clone() },
    ];
    let parsed = parse_fields(fields).unwrap();
    assert_eq!(
        parsed.input.files,
        Some(vec![format_name(&png, "png"), format_name(&gif, "gif")])
    );
}

#[test]
fn assignment_is_keyed_by_name_not_position() {
    let png = png_bytes();
    let first = parse_fields(vec![
        text_field("captcha", b"aB3x"),
        FormField { name: Some("file1".to_owned()), data: png.clone() },
    ])
    .unwrap();
    let second = parse_fields(vec![
        FormField { name: Some("file1".to_owned()), data: png.clone() },
        text_field("captcha", b"aB3x"),
    ])
    .unwrap();
    assert_eq!(first.input.captcha, second.input.captcha);
    assert_eq!(first.input.files, second.input.files);
}

#[test]
fn later_field_wins_by_name_not_position() {
    let fields = vec![
        text_field("board", b"b"),
        text_field("board", b"g"),
    ];
    let parsed = parse_fields(fields).unwrap();
    assert_eq!(parsed.input.board, "g");
}
