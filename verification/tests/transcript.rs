//! The connection transcript of RFC 3501's overview: every client line
//! must parse as a command; server lines are not commands.

use imap_codec::parse::command::command;

#[test]
fn test_transcript_from_rfc() {
    let transcript: [(char, &[u8]); 22] = [
        ('S', b"* OK IMAP4rev1 Service Ready\r\n"),
        ('C', b"a001 login mrc secret\r\n"),
        ('S', b"a001 OK LOGIN completed\r\n"),
        ('C', b"a002 select inbox\r\n"),
        ('S', b"* 18 EXISTS\r\n"),
        ('S', b"* FLAGS (\\Answered \\Flagged \\Deleted \\Seen \\Draft)\r\n"),
        ('S', b"* 2 RECENT\r\n"),
        ('S', b"* OK [UNSEEN 17] Message 17 is the first unseen message\r\n"),
        ('S', b"* OK [UIDVALIDITY 3857529045] UIDs valid\r\n"),
        ('S', b"a002 OK [READ-WRITE] SELECT completed\r\n"),
        ('C', b"a003 fetch 12 full\r\n"),
        (
            'S',
            b"* 12 FETCH (FLAGS (\\Seen) INTERNALDATE \"17-Jul-1996 02:44:25 -0700\")\r\n",
        ),
        ('S', b"a003 OK FETCH completed\r\n"),
        ('C', b"a004 fetch 12 body[header]\r\n"),
        ('S', b"* 12 FETCH (BODY[HEADER] {3}\r\nXXX)\r\n"),
        ('S', b"a004 OK FETCH completed\r\n"),
        ('C', b"a005 store 12 +flags \\deleted\r\n"),
        ('S', b"* 12 FETCH (FLAGS (\\Seen \\Deleted))\r\n"),
        ('S', b"a005 OK +FLAGS completed\r\n"),
        ('C', b"a006 logout\r\n"),
        ('S', b"* BYE IMAP4rev1 server terminating connection\r\n"),
        ('S', b"a006 OK LOGOUT completed\r\n"),
    ];

    for (side, test) in transcript.iter() {
        match side {
            'C' => {
                command(test).unwrap();
            }
            'S' => {}
            _ => unreachable!(),
        };
    }
}

#[test]
fn test_no_server_line_is_a_command() {
    let server_lines: [&[u8]; 5] = [
        b"* OK IMAP4rev1 Service Ready\r\n",
        b"* 18 EXISTS\r\n",
        b"* FLAGS (\\Answered \\Flagged \\Deleted \\Seen \\Draft)\r\n",
        b"+ go ahead\r\n",
        b"* BYE IMAP4rev1 server terminating connection\r\n",
    ];
    for line in server_lines.iter() {
        assert!(command(line).is_err());
    }
}

#[test]
fn test_every_client_line_round_trips() {
    let client_lines: [&[u8]; 6] = [
        b"a001 login mrc secret\r\n",
        b"a002 select inbox\r\n",
        b"a003 fetch 12 full\r\n",
        b"a004 fetch 12 body[header]\r\n",
        b"a005 store 12 +flags \\deleted\r\n",
        b"a006 logout\r\n",
    ];
    for line in client_lines.iter() {
        let (cmd, used) = command(line).unwrap();
        assert_eq!(used, line.len());
        let bytes = cmd.to_bytes();
        let (cmd2, used2) = command(&bytes).unwrap();
        assert_eq!(used2, bytes.len());
        assert_eq!(cmd, cmd2);
    }
}
