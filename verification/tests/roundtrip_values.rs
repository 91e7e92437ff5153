//! Round trips on concrete values: parse(encode(v)) gives v back, for the
//! primitive string types at their boundary cases and for whole commands.

use imap_codec::command::{
    Command, CommandBody, Date, FetchAttribute, Macro, MacroOrFetchAttributes, Mailbox, Section,
    SearchKey, StoreResponse, StoreType,
};
use imap_codec::parse::command::command;
use imap_codec::parse::{astring, atom, literal, nstring, quoted};
use imap_codec::primitive::{AString, Atom, IString, Literal, NString, NonEmptyVec, Quoted, Tag};
use imap_codec::sequence::{SeqNo, Sequence, SequenceSet};
use imap_codec::state::{allowed_in, ConnectionState};

#[test]
fn test_atom_value_round_trip() {
    let a = Atom::new(b"INBOX".to_vec()).unwrap();
    let mut bytes = Vec::new();
    a.encode(&mut bytes);
    bytes.push(b' ');
    let (back, used) = atom(&bytes, 0).unwrap();
    assert_eq!(used, 5);
    assert_eq!(back, a);
}

#[test]
fn test_quoted_empty_round_trip() {
    let q = Quoted::new(Vec::new()).unwrap();
    let mut bytes = Vec::new();
    q.encode(&mut bytes);
    assert_eq!(bytes, b"\"\"".to_vec());
    let (back, used) = quoted(&bytes, 0).unwrap();
    assert_eq!(used, 2);
    assert_eq!(back, q);
}

#[test]
fn test_literal_crlf_round_trip() {
    let l = Literal::new(b"line one\r\nline two\x00".to_vec());
    let mut bytes = Vec::new();
    l.encode(&mut bytes);
    let (back, used) = literal(&bytes, 0).unwrap();
    assert_eq!(used, bytes.len());
    assert_eq!(back, l);
}

#[test]
fn test_non_sync_literal_round_trip() {
    let l = Literal::new_non_sync(b"abc".to_vec());
    let mut bytes = Vec::new();
    l.encode(&mut bytes);
    assert_eq!(&bytes[..6], b"{3+}\r\n");
    let (back, used) = literal(&bytes, 0).unwrap();
    assert_eq!(used, bytes.len());
    assert_eq!(back, l);
    assert!(!back.sync());
}

#[test]
fn test_astring_round_trips() {
    // a word of astring characters stays an atom; content that quoting can
    // hold becomes a quoted string; content with CRLF becomes a literal
    let cases: [&[u8]; 4] = [b"BODY]", b"with space", b"a\r\nb", b"plain"];
    for content in cases.iter() {
        let v = AString::from_bytes(content.to_vec());
        let mut bytes = Vec::new();
        v.encode(&mut bytes);
        bytes.push(b' ');
        let (back, _used) = astring(&bytes, 0).unwrap();
        assert_eq!(back, v);
    }
}

#[test]
fn test_nstring_round_trips() {
    let nil = NString(None);
    let mut bytes = Vec::new();
    nil.encode(&mut bytes);
    assert_eq!(bytes, b"NIL".to_vec());
    let (back, used) = nstring(&bytes, 0).unwrap();
    assert_eq!(used, 3);
    assert_eq!(back, nil);

    let some = NString::from_bytes(b"subject line".to_vec());
    let mut bytes = Vec::new();
    some.encode(&mut bytes);
    let (back, used) = nstring(&bytes, 0).unwrap();
    assert_eq!(used, bytes.len());
    assert_eq!(back, some);
}

fn tag(s: &str) -> Tag {
    Tag::new(s.as_bytes().to_vec()).unwrap()
}

fn seq_set(entries: Vec<Sequence>) -> SequenceSet {
    SequenceSet::new(entries).unwrap()
}

#[test]
fn test_command_round_trips() {
    let commands = vec![
        Command::new(tag("a1"), CommandBody::Noop),
        Command::new(tag("a2"), CommandBody::Capability),
        Command::new(
            tag("a3"),
            CommandBody::Login {
                username: AString::from_bytes(b"mrc".to_vec()),
                password: AString::from_bytes(b"top secret\r\n!".to_vec()),
            },
        ),
        Command::new(tag("a4"), CommandBody::Select { mailbox: Mailbox::Inbox }),
        Command::new(
            tag("a5"),
            CommandBody::Rename {
                existing_mailbox_name: Mailbox::from_astring(AString::from_bytes(
                    b"old name".to_vec(),
                )),
                new_mailbox_name: Mailbox::from_astring(AString::from_bytes(b"new".to_vec())),
            },
        ),
        Command::new(
            tag("a6"),
            CommandBody::Fetch {
                sequence_set: seq_set(vec![
                    Sequence::Single(SeqNo::Value(5)),
                    Sequence::Range(SeqNo::Value(1), SeqNo::Value(3)),
                    Sequence::Single(SeqNo::Largest),
                ]),
                attributes: MacroOrFetchAttributes::Macro(Macro::Full),
                uid: false,
            },
        ),
        Command::new(
            tag("a7"),
            CommandBody::Fetch {
                sequence_set: seq_set(vec![Sequence::Single(SeqNo::Value(12))]),
                attributes: MacroOrFetchAttributes::FetchAttributes(vec![
                    FetchAttribute::Flags,
                    FetchAttribute::BodyExt {
                        section: Some(Section::Header(None)),
                        partial: Some((0, 100)),
                        peek: true,
                    },
                    FetchAttribute::Rfc822Size,
                ]),
                uid: true,
            },
        ),
        Command::new(
            tag("a8"),
            CommandBody::Store {
                sequence_set: seq_set(vec![Sequence::Single(SeqNo::Value(12))]),
                kind: StoreType::Add,
                response: StoreResponse::Silent,
                flags: vec![
                    imap_codec::command::Flag::Deleted,
                    imap_codec::command::Flag::Keyword(Atom::new(b"custom".to_vec()).unwrap()),
                ],
                uid: false,
            },
        ),
        Command::new(
            tag("a9"),
            CommandBody::Copy {
                sequence_set: seq_set(vec![Sequence::Single(SeqNo::Value(7))]),
                mailbox: Mailbox::from_astring(AString::from_bytes(b"Archive".to_vec())),
                uid: true,
            },
        ),
        Command::new(
            tag("a10"),
            CommandBody::Search {
                charset: None,
                criteria: SearchKey::And(
                    NonEmptyVec::new(vec![
                        SearchKey::Unseen,
                        SearchKey::Or(
                            Box::new(SearchKey::Before(Date::new(2020, 2, 1).unwrap())),
                            Box::new(SearchKey::Larger(1024)),
                        ),
                        SearchKey::Not(Box::new(SearchKey::From(AString::from_bytes(
                            b"spam@example.com".to_vec(),
                        )))),
                    ])
                    .unwrap(),
                ),
                uid: false,
            },
        ),
        Command::new(tag("a11"), CommandBody::Logout),
    ];
    for cmd in commands.iter() {
        let bytes = cmd.to_bytes();
        let (back, used) = command(&bytes).unwrap();
        assert_eq!(used, bytes.len());
        assert_eq!(&back, cmd);
    }
}

#[test]
fn test_login_with_literal_uses_continuation_framing() {
    let cmd = Command::new(
        tag("a1"),
        CommandBody::Login {
            username: AString::from_bytes(b"mrc".to_vec()),
            password: AString::String(IString::Literal(Literal::new(b"secret\r\n".to_vec()))),
        },
    );
    let bytes = cmd.to_bytes();
    // the literal announcement splits the command over two lines
    assert!(bytes.windows(6).any(|w| w == b"{8}\r\n\x73"));
    // a truncated prefix is incomplete, never malformed
    let cut = &bytes[..bytes.len() - 5];
    assert!(matches!(
        command(cut),
        Err(imap_codec::parse::ParseError::Incomplete(_))
    ));
    let (back, used) = command(&bytes).unwrap();
    assert_eq!(used, bytes.len());
    assert_eq!(back, cmd);
}

#[test]
fn test_search_charset_parses() {
    let (cmd, _used) = command(b"a1 search charset utf-8 unseen\r\n").unwrap();
    match cmd.body {
        CommandBody::Search { charset, criteria, uid } => {
            assert!(charset.is_some());
            assert_eq!(criteria, SearchKey::Unseen);
            assert!(!uid);
        }
        _ => panic!("not a search command"),
    }
}

#[test]
fn test_state_lookup() {
    let login = CommandBody::Login {
        username: AString::from_bytes(b"u".to_vec()),
        password: AString::from_bytes(b"p".to_vec()),
    };
    assert!(allowed_in(&login, ConnectionState::NotAuthenticated));
    assert!(!allowed_in(&login, ConnectionState::Authenticated));
    let select = CommandBody::Select { mailbox: Mailbox::Inbox };
    assert!(allowed_in(&select, ConnectionState::Authenticated));
    assert!(!allowed_in(&select, ConnectionState::NotAuthenticated));
    assert!(allowed_in(&CommandBody::Noop, ConnectionState::Selected));
    let fetch = CommandBody::Fetch {
        sequence_set: seq_set(vec![Sequence::Single(SeqNo::Value(1))]),
        attributes: MacroOrFetchAttributes::Macro(Macro::All),
        uid: false,
    };
    assert!(allowed_in(&fetch, ConnectionState::Selected));
    assert!(!allowed_in(&fetch, ConnectionState::Authenticated));
}

#[test]
fn test_uppercase_inbox_is_reserved() {
    let m = Mailbox::from_astring(AString::from_bytes(b"iNbOx".to_vec()));
    assert_eq!(m, Mailbox::Inbox);
    let other = Mailbox::from_astring(AString::from_bytes(b"inbox2".to_vec()));
    assert!(matches!(other, Mailbox::Other(_)));
}

#[test]
fn test_remaining_command_variants_round_trip() {
    let bodies = vec![
        CommandBody::Capability,
        CommandBody::StartTLS,
        CommandBody::Check,
        CommandBody::Close,
        CommandBody::Expunge,
        CommandBody::Examine { mailbox: Mailbox::Inbox },
        CommandBody::Create {
            mailbox: Mailbox::from_astring(AString::from_bytes(b"Drafts".to_vec())),
        },
        CommandBody::Delete {
            mailbox: Mailbox::from_astring(AString::from_bytes(b"Old".to_vec())),
        },
        CommandBody::Subscribe {
            mailbox: Mailbox::from_astring(AString::from_bytes(b"News".to_vec())),
        },
        CommandBody::Unsubscribe {
            mailbox: Mailbox::from_astring(AString::from_bytes(b"News".to_vec())),
        },
        CommandBody::Store {
            sequence_set: seq_set(vec![Sequence::Range(SeqNo::Value(2), SeqNo::Largest)]),
            kind: StoreType::Replace,
            response: StoreResponse::Answer,
            flags: vec![],
            uid: true,
        },
        CommandBody::Fetch {
            sequence_set: seq_set(vec![Sequence::Single(SeqNo::Value(1))]),
            attributes: MacroOrFetchAttributes::FetchAttributes(vec![
                FetchAttribute::BodyExt {
                    section: Some(Section::Part(
                        imap_codec::command::Part(NonEmptyVec::new(vec![1, 2]).unwrap()),
                    )),
                    partial: None,
                    peek: false,
                },
                FetchAttribute::BodyExt {
                    section: Some(Section::HeaderFields(
                        None,
                        NonEmptyVec::new(vec![AString::from_bytes(b"Subject".to_vec())]).unwrap(),
                    )),
                    partial: None,
                    peek: false,
                },
                FetchAttribute::BodyExt {
                    section: Some(Section::Text(None)),
                    partial: None,
                    peek: false,
                },
                FetchAttribute::InternalDate,
                FetchAttribute::Envelope,
                FetchAttribute::BodyStructure,
                FetchAttribute::Rfc822,
                FetchAttribute::Rfc822Header,
                FetchAttribute::Rfc822Text,
                FetchAttribute::Uid,
                FetchAttribute::Body,
            ]),
            uid: false,
        },
        CommandBody::Search {
            charset: Some(AString::from_bytes(b"UTF-8".to_vec())),
            criteria: SearchKey::SequenceSet(seq_set(vec![Sequence::Single(SeqNo::Value(4))])),
            uid: true,
        },
    ];
    for (i, body) in bodies.into_iter().enumerate() {
        let cmd = Command::new(tag(&format!("t{}", i)), body);
        let bytes = cmd.to_bytes();
        let (back, used) = command(&bytes)
            .unwrap_or_else(|e| panic!("{}: {:?}", String::from_utf8_lossy(&bytes), e));
        assert_eq!(used, bytes.len());
        assert_eq!(back, cmd);
    }
}

#[test]
fn test_two_literals_in_one_command() {
    let line: &[u8] = b"a1 login {3+}\r\nmrc {6}\r\nsecret\r\n";
    let (cmd, used) = command(line).unwrap();
    assert_eq!(used, line.len());
    match cmd.body {
        CommandBody::Login { username, password } => {
            assert_eq!(username.as_bytes(), &b"mrc".to_vec());
            assert_eq!(password.as_bytes(), &b"secret".to_vec());
        }
        _ => panic!("not a login command"),
    }
    // truncating inside the second literal is incomplete, not malformed
    assert!(matches!(
        command(&line[..line.len() - 6]),
        Err(imap_codec::parse::ParseError::Incomplete(_))
    ));
}
