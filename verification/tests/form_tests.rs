use minipost::form::{decode_bytes, form_field_get, Field};

fn found(r: Field) -> Vec<u8> {
    match r {
        Field::Found(v) => v,
        Field::Missing => panic!("field missing"),
        Field::Malformed => panic!("body malformed"),
    }
}

#[test]
fn plain_fields() {
    let body = b"title=Hello&content=World";
    assert_eq!(found(form_field_get(body, b"title")), b"Hello".to_vec());
    assert_eq!(found(form_field_get(body, b"content")), b"World".to_vec());
}

#[test]
fn plus_means_space() {
    assert_eq!(found(form_field_get(b"name=a+b", b"name")), b"a b".to_vec());
}

#[test]
fn percent_escapes() {
    assert_eq!(found(form_field_get(b"name=%41%62", b"name")), b"Ab".to_vec());
    assert_eq!(
        found(form_field_get(b"name=100%25", b"name")),
        b"100%".to_vec()
    );
}

#[test]
fn bad_escape_is_malformed() {
    assert!(matches!(
        form_field_get(b"name=%zz", b"name"),
        Field::Malformed
    ));
    assert!(matches!(form_field_get(b"name=%4", b"name"), Field::Malformed));
    assert!(matches!(
        form_field_get(b"bad%=1&name=x", b"name"),
        Field::Malformed
    ));
}

#[test]
fn non_utf8_value_is_malformed() {
    assert!(matches!(
        form_field_get(b"name=%FF", b"name"),
        Field::Malformed
    ));
    // An overlong encoding is not valid UTF-8 either.
    assert!(matches!(
        form_field_get(b"name=%C0%80", b"name"),
        Field::Malformed
    ));
    // A non-UTF-8 value in an earlier segment spoils the body too.
    assert!(matches!(
        form_field_get(b"junk=%80&name=x", b"name"),
        Field::Malformed
    ));
}

#[test]
fn multibyte_utf8_values_are_kept() {
    let v = found(form_field_get(b"name=caf%C3%A9", b"name"));
    assert_eq!(String::from_utf8(v).unwrap(), "caf\u{e9}");
}

#[test]
fn missing_field() {
    assert!(matches!(
        form_field_get(b"title=x", b"content"),
        Field::Missing
    ));
    assert!(matches!(form_field_get(b"", b"name"), Field::Missing));
}

#[test]
fn empty_and_absent_values() {
    assert_eq!(found(form_field_get(b"name=", b"name")), Vec::<u8>::new());
    assert_eq!(found(form_field_get(b"name", b"name")), Vec::<u8>::new());
}

#[test]
fn first_match_wins() {
    assert_eq!(found(form_field_get(b"name=a&name=b", b"name")), b"a".to_vec());
}

#[test]
fn keys_are_decoded() {
    assert_eq!(found(form_field_get(b"na%6De=x", b"name")), b"x".to_vec());
}

#[test]
fn decode_component() {
    assert_eq!(decode_bytes(b"%41+x").unwrap(), b"A x".to_vec());
    assert!(decode_bytes(b"a%GGb").is_none());
}

#[test]
fn agrees_with_reference_decoder() {
    let body: &[u8] = b"a=b+c&d=%41";
    let pairs: Vec<(String, String)> = serde_urlencoded::from_bytes(body).unwrap();
    assert_eq!(
        pairs,
        vec![
            ("a".to_string(), "b c".to_string()),
            ("d".to_string(), "A".to_string())
        ]
    );
    assert_eq!(found(form_field_get(body, b"a")), b"b c".to_vec());
    assert_eq!(found(form_field_get(body, b"d")), b"A".to_vec());
}
