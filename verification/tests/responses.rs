//! Server responses encode to the exact lines of the overview transcript.

use imap_codec::command::Flag;
use imap_codec::primitive::Tag;
use imap_codec::response::{Code, Condition, Data, Response, Status, Text};

fn text(s: &str) -> Text {
    Text::new(s.as_bytes().to_vec()).unwrap()
}

#[test]
fn test_status_encoding() {
    let greeting = Response::Status(Status::Condition {
        tag: None,
        condition: Condition::Okay,
        code: None,
        text: text("IMAP4rev1 Service Ready"),
    });
    assert_eq!(greeting.to_bytes(), b"* OK IMAP4rev1 Service Ready\r\n".to_vec());

    let completed = Response::Status(Status::Condition {
        tag: Some(Tag::new(b"a001".to_vec()).unwrap()),
        condition: Condition::Okay,
        code: None,
        text: text("LOGIN completed"),
    });
    assert_eq!(completed.to_bytes(), b"a001 OK LOGIN completed\r\n".to_vec());

    let unseen = Response::Status(Status::Condition {
        tag: None,
        condition: Condition::Okay,
        code: Some(Code::Unseen(17)),
        text: text("Message 17 is the first unseen message"),
    });
    assert_eq!(
        unseen.to_bytes(),
        b"* OK [UNSEEN 17] Message 17 is the first unseen message\r\n".to_vec()
    );

    let uidvalidity = Response::Status(Status::Condition {
        tag: None,
        condition: Condition::Okay,
        code: Some(Code::UidValidity(3857529045)),
        text: text("UIDs valid"),
    });
    assert_eq!(
        uidvalidity.to_bytes(),
        b"* OK [UIDVALIDITY 3857529045] UIDs valid\r\n".to_vec()
    );

    let bye = Response::Status(Status::Bye {
        code: None,
        text: text("IMAP4rev1 server terminating connection"),
    });
    assert_eq!(
        bye.to_bytes(),
        b"* BYE IMAP4rev1 server terminating connection\r\n".to_vec()
    );
}

#[test]
fn test_data_encoding() {
    assert_eq!(Response::Data(Data::Exists(18)).to_bytes(), b"* 18 EXISTS\r\n".to_vec());
    assert_eq!(Response::Data(Data::Recent(2)).to_bytes(), b"* 2 RECENT\r\n".to_vec());
    assert_eq!(Response::Data(Data::Expunge(5)).to_bytes(), b"* 5 EXPUNGE\r\n".to_vec());
    let flags = Response::Data(Data::Flags(vec![
        Flag::Answered,
        Flag::Flagged,
        Flag::Deleted,
        Flag::Seen,
        Flag::Draft,
    ]));
    assert_eq!(
        flags.to_bytes(),
        b"* FLAGS (\\Answered \\Flagged \\Deleted \\Seen \\Draft)\r\n".to_vec()
    );
    let search = Response::Data(Data::Search(vec![2, 84, 882]));
    assert_eq!(search.to_bytes(), b"* SEARCH 2 84 882\r\n".to_vec());
    let empty_search = Response::Data(Data::Search(vec![]));
    assert_eq!(empty_search.to_bytes(), b"* SEARCH\r\n".to_vec());
}

#[test]
fn test_continuation_encoding() {
    let cont = Response::Continue(text("Ready for literal data"));
    assert_eq!(cont.to_bytes(), b"+ Ready for literal data\r\n".to_vec());
}

#[test]
fn test_text_validation() {
    assert!(Text::new(b"".to_vec()).is_err());
    assert!(Text::new(b"line\r\nbreak".to_vec()).is_err());
    assert!(Text::new(b"fine text".to_vec()).is_ok());
}
