//! Validation, non-emptiness, extension-chain and framing behaviour on
//! concrete values.

use imap_codec::body::{BasicFields, Body, BodyStructure, SinglePartExtensionData, SpecificFields};
use imap_codec::command::{Date, SearchKey};
use imap_codec::parse::command::command;
use imap_codec::parse::ParseError;
use imap_codec::primitive::{Atom, IString, Literal, NString, NonEmptyVec, Quoted};
use imap_codec::sequence::sequence_set;
use imap_codec::ValidationError;

fn quoted(s: &str) -> IString {
    IString::Quoted(Quoted::new(s.as_bytes().to_vec()).unwrap())
}

#[test]
fn test_atom_validation() {
    assert_eq!(
        Atom::new(b" has space".to_vec()),
        Err(ValidationError::DisallowedByte)
    );
    assert_eq!(Atom::new(b"".to_vec()), Err(ValidationError::Empty));
    assert!(Atom::new(b"INBOX".to_vec()).is_ok());
    assert_eq!(Atom::new(b"br{ce".to_vec()), Err(ValidationError::DisallowedByte));
    assert_eq!(Atom::new(b"(par".to_vec()), Err(ValidationError::DisallowedByte));
}

#[test]
fn test_literal_accepts_any_bytes() {
    let data = vec![0u8, 13, 10, 0xff, b'"', b'\\'];
    let l = Literal::new(data.clone());
    assert_eq!(l.as_bytes(), &data);
    assert!(l.sync());
}

#[test]
fn test_quoted_rejects_specials() {
    assert!(Quoted::new(b"plain text".to_vec()).is_ok());
    assert!(Quoted::new(b"".to_vec()).is_ok());
    assert_eq!(
        Quoted::new(b"a\"b".to_vec()),
        Err(ValidationError::DisallowedByte)
    );
    assert_eq!(
        Quoted::new(b"a\r\nb".to_vec()),
        Err(ValidationError::DisallowedByte)
    );
    assert_eq!(
        Quoted::new(b"a\\b".to_vec()),
        Err(ValidationError::DisallowedByte)
    );
}

#[test]
fn test_istring_picks_representation_by_content() {
    assert!(matches!(
        IString::from_bytes(b"hello world".to_vec()),
        IString::Quoted(_)
    ));
    assert!(matches!(
        IString::from_bytes(b"line one\r\nline two".to_vec()),
        IString::Literal(_)
    ));
    assert!(matches!(
        IString::from_bytes(vec![0u8, 1, 2]),
        IString::Literal(_)
    ));
}

#[test]
fn test_non_empty_vec_rejects_empty() {
    assert_eq!(
        NonEmptyVec::<u32>::new(vec![]),
        Err(ValidationError::Empty)
    );
    assert!(NonEmptyVec::new(vec![1u32]).is_ok());
}

#[test]
fn test_search_and_needs_conjuncts() {
    // an empty And is not constructible: its list type rejects emptiness
    assert_eq!(
        NonEmptyVec::<SearchKey>::new(vec![]),
        Err(ValidationError::Empty)
    );
    let keys = NonEmptyVec::new(vec![SearchKey::Seen, SearchKey::Deleted]).unwrap();
    let and = SearchKey::And(keys);
    let mut out = Vec::new();
    and.encode(&mut out);
    assert_eq!(out, b"(SEEN DELETED)".to_vec());
}

#[test]
fn test_date_validation() {
    assert!(Date::new(2020, 2, 1).is_ok());
    assert_eq!(Date::new(2020, 0, 1), Err(ValidationError::OutOfRange));
    assert_eq!(Date::new(2020, 13, 1), Err(ValidationError::OutOfRange));
    assert_eq!(Date::new(2020, 2, 32), Err(ValidationError::OutOfRange));
    // impossible calendar dates are rejected, leap years respected
    assert_eq!(Date::new(2021, 2, 29), Err(ValidationError::OutOfRange));
    assert!(Date::new(2020, 2, 29).is_ok());
    assert_eq!(Date::new(1900, 2, 29), Err(ValidationError::OutOfRange));
    assert!(Date::new(2000, 2, 29).is_ok());
    assert_eq!(Date::new(2021, 4, 31), Err(ValidationError::OutOfRange));
    assert!(Date::new(2021, 12, 31).is_ok());
    let mut out = Vec::new();
    Date::new(2020, 2, 1).unwrap().encode(&mut out);
    assert_eq!(out, b"1-Feb-2020".to_vec());
}

#[test]
fn test_extension_chain_drops_later_fields_without_earlier() {
    // language is populated but disposition is absent: emission must stop
    // before both, leaving only the md5 field
    let d = SinglePartExtensionData {
        md5: NString(None),
        disposition: None,
        language: Some(vec![quoted("en")]),
        location: Some(NString(None)),
        extension: vec![],
    };
    let mut out = Vec::new();
    d.encode(&mut out);
    assert_eq!(out, b"NIL".to_vec());
}

#[test]
fn test_extension_chain_full() {
    let d = SinglePartExtensionData {
        md5: NString(None),
        disposition: Some(Some((quoted("inline"), vec![]))),
        language: Some(vec![quoted("en")]),
        location: Some(NString(None)),
        extension: vec![],
    };
    let mut out = Vec::new();
    d.encode(&mut out);
    assert_eq!(out, b"NIL (\"inline\" NIL) (\"en\") NIL".to_vec());
}

#[test]
fn test_body_structure_encoding() {
    let bs = BodyStructure::Single {
        body: Body {
            basic: BasicFields {
                parameter_list: vec![(quoted("CHARSET"), quoted("US-ASCII"))],
                id: NString(None),
                description: NString(None),
                content_transfer_encoding: quoted("7BIT"),
                size: 2279,
            },
            specific: SpecificFields::Text {
                subtype: quoted("PLAIN"),
                number_of_lines: 48,
            },
        },
        extension: None,
    };
    let mut out = Vec::new();
    bs.encode(&mut out);
    assert_eq!(
        out,
        b"(\"TEXT\" \"PLAIN\" (\"CHARSET\" \"US-ASCII\") NIL NIL \"7BIT\" 2279 48)".to_vec()
    );
}

#[test]
fn test_sequence_set_order_preserved() {
    let (set, used) = sequence_set(b"5,1:3,*", 0).unwrap();
    assert_eq!(used, 7);
    let mut out = Vec::new();
    set.encode(&mut out);
    assert_eq!(out, b"5,1:3,*".to_vec());
}

#[test]
fn test_sequence_set_rejects_malformed() {
    assert!(sequence_set(b",1", 0).is_none());
    assert!(sequence_set(b"0", 0).is_none());
    assert!(sequence_set(b"012", 0).is_none());
    // a trailing comma promises another entry and is a hard error
    assert!(sequence_set(b"1,", 0).is_none());
}

#[test]
fn test_incomplete_vs_malformed() {
    // 1 of the 3 promised literal octets: more bytes are needed
    let r = command(b"a001 fetch 12 body[header] {3}\r\nX");
    assert_eq!(r.unwrap_err(), ParseError::Incomplete(2));
    // no line terminator yet: more bytes are needed
    let r = command(b"a001 noop");
    assert_eq!(r.unwrap_err(), ParseError::Incomplete(2));
    // a complete line that violates the grammar can never succeed
    let r = command(b"a001 bogus!!\r\n");
    assert_eq!(r.unwrap_err(), ParseError::Failed);
}
