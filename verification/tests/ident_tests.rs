use minipost::ident::PostId;

fn sample_bytes() -> Vec<u8> {
    vec![
        0x12, 0x34, 0x56, 0x78, 0x9a, 0xbc, 0xde, 0xf0, 0x01, 0x23, 0x45, 0x67, 0x89, 0xab, 0xcd,
        0xef,
    ]
}

#[test]
fn text_form_is_canonical() {
    let id = PostId::from_bytes(sample_bytes());
    let txt = id.to_text();
    assert_eq!(
        String::from_utf8(txt).unwrap(),
        "12345678-9abc-def0-0123-456789abcdef"
    );
}

#[test]
fn parse_round_trip() {
    let id = PostId::from_bytes(sample_bytes());
    let txt = id.to_text();
    let back = PostId::parse(&txt).unwrap();
    assert_eq!(back.as_bytes(), id.as_bytes());
}

#[test]
fn parse_accepts_uppercase() {
    let id = PostId::parse(b"12345678-9ABC-DEF0-0123-456789ABCDEF").unwrap();
    assert_eq!(id.as_bytes(), sample_bytes().as_slice());
    assert_eq!(
        String::from_utf8(id.to_text()).unwrap(),
        "12345678-9abc-def0-0123-456789abcdef"
    );
}

#[test]
fn parse_rejects_bad_text() {
    assert!(PostId::parse(b"not-a-valid-id").is_none());
    assert!(PostId::parse(b"").is_none());
    assert!(PostId::parse(b"12345678-9abc-def0-0123-456789abcde").is_none());
    assert!(PostId::parse(b"12345678-9abc-def0-0123-456789abcdef0").is_none());
    assert!(PostId::parse(b"12345678x9abc-def0-0123-456789abcdef").is_none());
    assert!(PostId::parse(b"1234567g-9abc-def0-0123-456789abcdef").is_none());
    assert!(PostId::parse(b"12345678-9abc-def0-0123-45678-abcdef").is_none());
}

#[test]
fn duplicate_keeps_bytes() {
    let id = PostId::from_bytes(sample_bytes());
    let copy = id.duplicate();
    assert_eq!(copy.as_bytes(), id.as_bytes());
}
