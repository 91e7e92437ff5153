//! Server responses: status responses with their optional response codes,
//! a few forms of untagged server data, and the continuation request, each
//! with its wire encoding.  (Responses are emitted, not parsed: the parser
//! side of this crate covers client commands.)

use vstd::prelude::*;
use crate::ValidationError;
use crate::primitive::{
    Atom, Tag, dec_digits, encode_number, extend_bytes, is_ctl,
};
use crate::command::{Flag, encoded_flag_list, encode_flag_list};

verus! {

/// The token `* `.
pub open spec fn rtok_star_sp() -> Seq<u8> {
    seq![0x2au8, 0x20u8]
}

fn rw_star_sp(out: &mut Vec<u8>)
    ensures
        final(out)@ == old(out)@ + rtok_star_sp(),
{
    let w: [u8; 2] = [0x2a, 0x20];
    proof {
        assert(w@ =~= rtok_star_sp());
    }
    extend_bytes(out, w.as_slice());
}

/// The token `+ `.
pub open spec fn rtok_plus_sp() -> Seq<u8> {
    seq![0x2bu8, 0x20u8]
}

fn rw_plus_sp(out: &mut Vec<u8>)
    ensures
        final(out)@ == old(out)@ + rtok_plus_sp(),
{
    let w: [u8; 2] = [0x2b, 0x20];
    proof {
        assert(w@ =~= rtok_plus_sp());
    }
    extend_bytes(out, w.as_slice());
}

/// The token `OK `.
pub open spec fn rtok_ok_sp() -> Seq<u8> {
    seq![0x4fu8, 0x4bu8, 0x20u8]
}

fn rw_ok_sp(out: &mut Vec<u8>)
    ensures
        final(out)@ == old(out)@ + rtok_ok_sp(),
{
    let w: [u8; 3] = [0x4f, 0x4b, 0x20];
    proof {
        assert(w@ =~= rtok_ok_sp());
    }
    extend_bytes(out, w.as_slice());
}

/// The token `NO `.
pub open spec fn rtok_no_sp() -> Seq<u8> {
    seq![0x4eu8, 0x4fu8, 0x20u8]
}

fn rw_no_sp(out: &mut Vec<u8>)
    ensures
        final(out)@ == old(out)@ + rtok_no_sp(),
{
    let w: [u8; 3] = [0x4e, 0x4f, 0x20];
    proof {
        assert(w@ =~= rtok_no_sp());
    }
    extend_bytes(out, w.as_slice());
}

/// The token `BAD `.
pub open spec fn rtok_bad_sp() -> Seq<u8> {
    seq![0x42u8, 0x41u8, 0x44u8, 0x20u8]
}

fn rw_bad_sp(out: &mut Vec<u8>)
    ensures
        final(out)@ == old(out)@ + rtok_bad_sp(),
{
    let w: [u8; 4] = [0x42, 0x41, 0x44, 0x20];
    proof {
        assert(w@ =~= rtok_bad_sp());
    }
    extend_bytes(out, w.as_slice());
}

/// The token `PREAUTH `.
pub open spec fn rtok_preauth_sp() -> Seq<u8> {
    seq![0x50u8, 0x52u8, 0x45u8, 0x41u8, 0x55u8, 0x54u8, 0x48u8, 0x20u8]
}

fn rw_preauth_sp(out: &mut Vec<u8>)
    ensures
        final(out)@ == old(out)@ + rtok_preauth_sp(),
{
    let w: [u8; 8] = [0x50, 0x52, 0x45, 0x41, 0x55, 0x54, 0x48, 0x20];
    proof {
        assert(w@ =~= rtok_preauth_sp());
    }
    extend_bytes(out, w.as_slice());
}

/// The token `BYE `.
pub open spec fn rtok_bye_sp() -> Seq<u8> {
    seq![0x42u8, 0x59u8, 0x45u8, 0x20u8]
}

fn rw_bye_sp(out: &mut Vec<u8>)
    ensures
        final(out)@ == old(out)@ + rtok_bye_sp(),
{
    let w: [u8; 4] = [0x42, 0x59, 0x45, 0x20];
    proof {
        assert(w@ =~= rtok_bye_sp());
    }
    extend_bytes(out, w.as_slice());
}

/// The token `ALERT`.
pub open spec fn rtok_alert() -> Seq<u8> {
    seq![0x41u8, 0x4cu8, 0x45u8, 0x52u8, 0x54u8]
}

fn rw_alert(out: &mut Vec<u8>)
    ensures
        final(out)@ == old(out)@ + rtok_alert(),
{
    let w: [u8; 5] = [0x41, 0x4c, 0x45, 0x52, 0x54];
    proof {
        assert(w@ =~= rtok_alert());
    }
    extend_bytes(out, w.as_slice());
}

/// The token `READ-ONLY`.
pub open spec fn rtok_read_only() -> Seq<u8> {
    seq![0x52u8, 0x45u8, 0x41u8, 0x44u8, 0x2du8, 0x4fu8, 0x4eu8, 0x4cu8, 0x59u8]
}

fn rw_read_only(out: &mut Vec<u8>)
    ensures
        final(out)@ == old(out)@ + rtok_read_only(),
{
    let w: [u8; 9] = [0x52, 0x45, 0x41, 0x44, 0x2d, 0x4f, 0x4e, 0x4c, 0x59];
    proof {
        assert(w@ =~= rtok_read_only());
    }
    extend_bytes(out, w.as_slice());
}

/// The token `READ-WRITE`.
pub open spec fn rtok_read_write() -> Seq<u8> {
    seq![0x52u8, 0x45u8, 0x41u8, 0x44u8, 0x2du8, 0x57u8, 0x52u8, 0x49u8, 0x54u8, 0x45u8]
}

fn rw_read_write(out: &mut Vec<u8>)
    ensures
        final(out)@ == old(out)@ + rtok_read_write(),
{
    let w: [u8; 10] = [0x52, 0x45, 0x41, 0x44, 0x2d, 0x57, 0x52, 0x49, 0x54, 0x45];
    proof {
        assert(w@ =~= rtok_read_write());
    }
    extend_bytes(out, w.as_slice());
}

/// The token `UNSEEN `.
pub open spec fn rtok_unseen_sp() -> Seq<u8> {
    seq![0x55u8, 0x4eu8, 0x53u8, 0x45u8, 0x45u8, 0x4eu8, 0x20u8]
}

fn rw_unseen_sp(out: &mut Vec<u8>)
    ensures
        final(out)@ == old(out)@ + rtok_unseen_sp(),
{
    let w: [u8; 7] = [0x55, 0x4e, 0x53, 0x45, 0x45, 0x4e, 0x20];
    proof {
        assert(w@ =~= rtok_unseen_sp());
    }
    extend_bytes(out, w.as_slice());
}

/// The token `UIDNEXT `.
pub open spec fn rtok_uidnext_sp() -> Seq<u8> {
    seq![0x55u8, 0x49u8, 0x44u8, 0x4eu8, 0x45u8, 0x58u8, 0x54u8, 0x20u8]
}

fn rw_uidnext_sp(out: &mut Vec<u8>)
    ensures
        final(out)@ == old(out)@ + rtok_uidnext_sp(),
{
    let w: [u8; 8] = [0x55, 0x49, 0x44, 0x4e, 0x45, 0x58, 0x54, 0x20];
    proof {
        assert(w@ =~= rtok_uidnext_sp());
    }
    extend_bytes(out, w.as_slice());
}

/// The token `UIDVALIDITY `.
pub open spec fn rtok_uidvalidity_sp() -> Seq<u8> {
    seq![0x55u8, 0x49u8, 0x44u8, 0x56u8, 0x41u8, 0x4cu8, 0x49u8, 0x44u8, 0x49u8, 0x54u8, 0x59u8, 0x20u8]
}

fn rw_uidvalidity_sp(out: &mut Vec<u8>)
    ensures
        final(out)@ == old(out)@ + rtok_uidvalidity_sp(),
{
    let w: [u8; 12] = [0x55, 0x49, 0x44, 0x56, 0x41, 0x4c, 0x49, 0x44, 0x49, 0x54, 0x59, 0x20];
    proof {
        assert(w@ =~= rtok_uidvalidity_sp());
    }
    extend_bytes(out, w.as_slice());
}

/// The token `TRYCREATE`.
pub open spec fn rtok_trycreate() -> Seq<u8> {
    seq![0x54u8, 0x52u8, 0x59u8, 0x43u8, 0x52u8, 0x45u8, 0x41u8, 0x54u8, 0x45u8]
}

fn rw_trycreate(out: &mut Vec<u8>)
    ensures
        final(out)@ == old(out)@ + rtok_trycreate(),
{
    let w: [u8; 9] = [0x54, 0x52, 0x59, 0x43, 0x52, 0x45, 0x41, 0x54, 0x45];
    proof {
        assert(w@ =~= rtok_trycreate());
    }
    extend_bytes(out, w.as_slice());
}

/// The token ` EXISTS`.
pub open spec fn rtok_sp_exists() -> Seq<u8> {
    seq![0x20u8, 0x45u8, 0x58u8, 0x49u8, 0x53u8, 0x54u8, 0x53u8]
}

fn rw_sp_exists(out: &mut Vec<u8>)
    ensures
        final(out)@ == old(out)@ + rtok_sp_exists(),
{
    let w: [u8; 7] = [0x20, 0x45, 0x58, 0x49, 0x53, 0x54, 0x53];
    proof {
        assert(w@ =~= rtok_sp_exists());
    }
    extend_bytes(out, w.as_slice());
}

/// The token ` RECENT`.
pub open spec fn rtok_sp_recent() -> Seq<u8> {
    seq![0x20u8, 0x52u8, 0x45u8, 0x43u8, 0x45u8, 0x4eu8, 0x54u8]
}

fn rw_sp_recent(out: &mut Vec<u8>)
    ensures
        final(out)@ == old(out)@ + rtok_sp_recent(),
{
    let w: [u8; 7] = [0x20, 0x52, 0x45, 0x43, 0x45, 0x4e, 0x54];
    proof {
        assert(w@ =~= rtok_sp_recent());
    }
    extend_bytes(out, w.as_slice());
}

/// The token ` EXPUNGE`.
pub open spec fn rtok_sp_expunge() -> Seq<u8> {
    seq![0x20u8, 0x45u8, 0x58u8, 0x50u8, 0x55u8, 0x4eu8, 0x47u8, 0x45u8]
}

fn rw_sp_expunge(out: &mut Vec<u8>)
    ensures
        final(out)@ == old(out)@ + rtok_sp_expunge(),
{
    let w: [u8; 8] = [0x20, 0x45, 0x58, 0x50, 0x55, 0x4e, 0x47, 0x45];
    proof {
        assert(w@ =~= rtok_sp_expunge());
    }
    extend_bytes(out, w.as_slice());
}

/// The token `FLAGS `.
pub open spec fn rtok_flags_sp() -> Seq<u8> {
    seq![0x46u8, 0x4cu8, 0x41u8, 0x47u8, 0x53u8, 0x20u8]
}

fn rw_flags_sp(out: &mut Vec<u8>)
    ensures
        final(out)@ == old(out)@ + rtok_flags_sp(),
{
    let w: [u8; 6] = [0x46, 0x4c, 0x41, 0x47, 0x53, 0x20];
    proof {
        assert(w@ =~= rtok_flags_sp());
    }
    extend_bytes(out, w.as_slice());
}

/// The token `SEARCH`.
pub open spec fn rtok_search() -> Seq<u8> {
    seq![0x53u8, 0x45u8, 0x41u8, 0x52u8, 0x43u8, 0x48u8]
}

fn rw_search(out: &mut Vec<u8>)
    ensures
        final(out)@ == old(out)@ + rtok_search(),
{
    let w: [u8; 6] = [0x53, 0x45, 0x41, 0x52, 0x43, 0x48];
    proof {
        assert(w@ =~= rtok_search());
    }
    extend_bytes(out, w.as_slice());
}

/// Human-readable response text: 7-bit, no control characters, non-empty.
#[derive(Debug, Clone, PartialEq, Eq)]
pub struct Text {
    bytes: Vec<u8>,
}

impl View for Text {
    type V = Seq<u8>;

    closed spec fn view(&self) -> Seq<u8> {
        self.bytes@
    }
}

/// A byte allowed in response text.
pub open spec fn is_text_char(b: u8) -> bool {
    b < 0x80 && !is_ctl(b)
}

impl Text {
    pub open spec fn is_valid(s: Seq<u8>) -> bool {
        s.len() > 0 && forall|i: int| 0 <= i < s.len() ==> is_text_char(s[i])
    }

    pub open spec fn wf(&self) -> bool {
        Self::is_valid(self@)
    }

    pub fn new(bytes: Vec<u8>) -> (r: Result<Text, ValidationError>)
        ensures
            r is Ok <==> Self::is_valid(bytes@),
            r matches Ok(t) ==> t@ == bytes@,
            bytes@.len() == 0 ==> r == Err::<Text, ValidationError>(ValidationError::Empty),
            r is Err && bytes@.len() > 0 ==> r == Err::<Text, ValidationError>(
                ValidationError::DisallowedByte,
            ),
    {
        if bytes.len() == 0 {
            return Err(ValidationError::Empty);
        }
        let mut i: usize = 0;
        while i < bytes.len()
            invariant
                0 <= i <= bytes.len(),
                forall|j: int| 0 <= j < i ==> is_text_char(bytes@[j]),
            decreases bytes.len() - i,
        {
            let b = bytes[i];
            if !(b < 0x80 && !(b < 0x20 || b == 0x7f)) {
                return Err(ValidationError::DisallowedByte);
            }
            i += 1;
        }
        Ok(Text { bytes })
    }

    pub open spec fn encoded(&self) -> Seq<u8> {
        self@
    }

    pub fn encode(&self, out: &mut Vec<u8>)
        ensures
            final(out)@ == old(out)@ + self.encoded(),
    {
        extend_bytes(out, self.bytes.as_slice());
    }
}

/// A response code, carried in brackets before the text of a status
/// response.
#[derive(Debug, Clone, PartialEq, Eq)]
pub enum Code {
    Alert,
    ReadOnly,
    ReadWrite,
    TryCreate,
    Unseen(u32),
    UidNext(u32),
    UidValidity(u32),
    /// A code this model does not know by name.
    Other(Atom),
}

impl Code {
    pub open spec fn wf(&self) -> bool {
        match self {
            Code::Other(a) => a.wf(),
            _ => true,
        }
    }

    pub open spec fn encoded(&self) -> Seq<u8> {
        match self {
            Code::Alert => rtok_alert(),
            Code::ReadOnly => rtok_read_only(),
            Code::ReadWrite => rtok_read_write(),
            Code::TryCreate => rtok_trycreate(),
            Code::Unseen(n) => rtok_unseen_sp() + dec_digits(*n as nat),
            Code::UidNext(n) => rtok_uidnext_sp() + dec_digits(*n as nat),
            Code::UidValidity(n) => rtok_uidvalidity_sp() + dec_digits(*n as nat),
            Code::Other(a) => a.encoded(),
        }
    }

    pub fn encode(&self, out: &mut Vec<u8>)
        ensures
            final(out)@ == old(out)@ + self.encoded(),
    {
        match self {
            Code::Alert => rw_alert(out),
            Code::ReadOnly => rw_read_only(out),
            Code::ReadWrite => rw_read_write(out),
            Code::TryCreate => rw_trycreate(out),
            Code::Unseen(n) => {
                rw_unseen_sp(out);
                encode_number(*n, out);
                assert(final(out)@ =~= old(out)@ + self.encoded());
            },
            Code::UidNext(n) => {
                rw_uidnext_sp(out);
                encode_number(*n, out);
                assert(final(out)@ =~= old(out)@ + self.encoded());
            },
            Code::UidValidity(n) => {
                rw_uidvalidity_sp(out);
                encode_number(*n, out);
                assert(final(out)@ =~= old(out)@ + self.encoded());
            },
            Code::Other(a) => a.encode(out),
        }
    }
}

/// The bracketed code prefix of a status response's text, if any.
pub open spec fn encoded_code_prefix(code: Option<Code>) -> Seq<u8> {
    match code {
        None => Seq::empty(),
        Some(c) => seq![0x5bu8] + c.encoded() + seq![0x5du8, 0x20u8],
    }
}

fn encode_code_prefix(code: &Option<Code>, out: &mut Vec<u8>)
    ensures
        final(out)@ == old(out)@ + encoded_code_prefix(*code),
{
    match code {
        None => {
            assert(final(out)@ =~= old(out)@ + encoded_code_prefix(*code));
        },
        Some(c) => {
            out.push(0x5b);
            c.encode(out);
            out.push(0x5d);
            out.push(0x20);
            assert(final(out)@ =~= old(out)@ + encoded_code_prefix(*code));
        },
    }
}

/// The condition of a status response.
#[derive(Debug, Clone, Copy, PartialEq, Eq, Structural)]
pub enum Condition {
    Okay,
    No,
    Bad,
}

/// A status response: a tagged or untagged completion or greeting line.
#[derive(Debug, Clone, PartialEq, Eq)]
pub enum Status {
    /// OK, NO or BAD, tagged (a command's completion) or untagged.
    Condition { tag: Option<Tag>, condition: Condition, code: Option<Code>, text: Text },
    /// The pre-authenticated greeting; always untagged.
    PreAuth { code: Option<Code>, text: Text },
    /// The connection-closing announcement; always untagged.
    Bye { code: Option<Code>, text: Text },
}

/// The leading tag of a status line: the command's tag, or `*`.
pub open spec fn encoded_status_prefix(tag: Option<Tag>) -> Seq<u8> {
    match tag {
        None => rtok_star_sp(),
        Some(t) => t.encoded() + seq![0x20u8],
    }
}

impl Status {
    pub open spec fn wf(&self) -> bool {
        match self {
            Status::Condition { tag, condition, code, text } => (match tag {
                Some(t) => t.wf(),
                None => true,
            }) && (match code {
                Some(c) => c.wf(),
                None => true,
            }) && text.wf(),
            Status::PreAuth { code, text } => (match code {
                Some(c) => c.wf(),
                None => true,
            }) && text.wf(),
            Status::Bye { code, text } => (match code {
                Some(c) => c.wf(),
                None => true,
            }) && text.wf(),
        }
    }

    pub open spec fn encoded(&self) -> Seq<u8> {
        match self {
            Status::Condition { tag, condition, code, text } => encoded_status_prefix(*tag) + (
            match condition {
                Condition::Okay => rtok_ok_sp(),
                Condition::No => rtok_no_sp(),
                Condition::Bad => rtok_bad_sp(),
            }) + encoded_code_prefix(*code) + text.encoded() + seq![0x0du8, 0x0au8],
            Status::PreAuth { code, text } => rtok_star_sp() + rtok_preauth_sp()
                + encoded_code_prefix(*code) + text.encoded() + seq![0x0du8, 0x0au8],
            Status::Bye { code, text } => rtok_star_sp() + rtok_bye_sp() + encoded_code_prefix(
                *code,
            ) + text.encoded() + seq![0x0du8, 0x0au8],
        }
    }

    pub fn encode(&self, out: &mut Vec<u8>)
        ensures
            final(out)@ == old(out)@ + self.encoded(),
    {
        match self {
            Status::Condition { tag, condition, code, text } => {
                match tag {
                    None => rw_star_sp(out),
                    Some(t) => {
                        t.encode(out);
                        out.push(0x20);
                    },
                }
                match condition {
                    Condition::Okay => rw_ok_sp(out),
                    Condition::No => rw_no_sp(out),
                    Condition::Bad => rw_bad_sp(out),
                }
                encode_code_prefix(code, out);
                text.encode(out);
                out.push(0x0d);
                out.push(0x0a);
                assert(final(out)@ =~= old(out)@ + self.encoded());
            },
            Status::PreAuth { code, text } => {
                rw_star_sp(out);
                rw_preauth_sp(out);
                encode_code_prefix(code, out);
                text.encode(out);
                out.push(0x0d);
                out.push(0x0a);
                assert(final(out)@ =~= old(out)@ + self.encoded());
            },
            Status::Bye { code, text } => {
                rw_star_sp(out);
                rw_bye_sp(out);
                encode_code_prefix(code, out);
                text.encode(out);
                out.push(0x0d);
                out.push(0x0a);
                assert(final(out)@ =~= old(out)@ + self.encoded());
            },
        }
    }
}

/// Untagged server data.
#[derive(Debug, Clone, PartialEq, Eq)]
pub enum Data {
    /// The mailbox's message count.
    Exists(u32),
    /// The count of messages with the `\Recent` flag.
    Recent(u32),
    /// A message was removed; later sequence numbers shift down.
    Expunge(u32),
    /// The flags applicable in the selected mailbox.
    Flags(Vec<Flag>),
    /// The message numbers matching a search.
    Search(Vec<u32>),
}

/// The space-prefixed numbers of a SEARCH data line.
pub open spec fn encoded_search_numbers(l: Seq<u32>) -> Seq<u8>
    decreases l,
{
    if l.len() == 0 {
        Seq::empty()
    } else {
        seq![0x20u8] + dec_digits(l[0] as nat) + encoded_search_numbers(l.drop_first())
    }
}

proof fn lemma_search_numbers_push(l: Seq<u32>, x: u32)
    ensures
        encoded_search_numbers(l.push(x)) == encoded_search_numbers(l) + seq![0x20u8]
            + dec_digits(x as nat),
    decreases l,
{
    let w = l.push(x);
    assert(encoded_search_numbers(Seq::<u32>::empty()) == Seq::<u8>::empty());
    if l.len() == 0 {
        assert(w[0] == x);
        assert(encoded_search_numbers(l) == Seq::<u8>::empty());
        assert(w.drop_first() =~= Seq::<u32>::empty());
        assert(seq![0x20u8] + dec_digits(x as nat) + Seq::<u8>::empty() =~= Seq::<u8>::empty()
            + seq![0x20u8] + dec_digits(x as nat));
    } else {
        lemma_search_numbers_push(l.drop_first(), x);
        assert(w.drop_first() =~= l.drop_first().push(x));
        assert(w[0] == l[0]);
        assert(seq![0x20u8] + dec_digits(l[0] as nat) + (encoded_search_numbers(l.drop_first())
            + seq![0x20u8] + dec_digits(x as nat)) =~= (seq![0x20u8] + dec_digits(l[0] as nat)
            + encoded_search_numbers(l.drop_first())) + seq![0x20u8] + dec_digits(x as nat));
    }
}

impl Data {
    pub open spec fn wf(&self) -> bool {
        match self {
            Data::Flags(fs) => forall|i: int| 0 <= i < fs@.len() ==> (#[trigger] fs@[i]).wf(),
            _ => true,
        }
    }

    pub open spec fn encoded(&self) -> Seq<u8> {
        match self {
            Data::Exists(n) => rtok_star_sp() + dec_digits(*n as nat) + rtok_sp_exists() + seq![
                0x0du8,
                0x0au8,
            ],
            Data::Recent(n) => rtok_star_sp() + dec_digits(*n as nat) + rtok_sp_recent() + seq![
                0x0du8,
                0x0au8,
            ],
            Data::Expunge(n) => rtok_star_sp() + dec_digits(*n as nat) + rtok_sp_expunge() + seq![
                0x0du8,
                0x0au8,
            ],
            Data::Flags(fs) => rtok_star_sp() + rtok_flags_sp() + encoded_flag_list(fs@) + seq![
                0x0du8,
                0x0au8,
            ],
            Data::Search(ns) => rtok_star_sp() + rtok_search() + encoded_search_numbers(ns@)
                + seq![0x0du8, 0x0au8],
        }
    }

    pub fn encode(&self, out: &mut Vec<u8>)
        ensures
            final(out)@ == old(out)@ + self.encoded(),
    {
        match self {
            Data::Exists(n) => {
                rw_star_sp(out);
                encode_number(*n, out);
                rw_sp_exists(out);
                out.push(0x0d);
                out.push(0x0a);
                assert(final(out)@ =~= old(out)@ + self.encoded());
            },
            Data::Recent(n) => {
                rw_star_sp(out);
                encode_number(*n, out);
                rw_sp_recent(out);
                out.push(0x0d);
                out.push(0x0a);
                assert(final(out)@ =~= old(out)@ + self.encoded());
            },
            Data::Expunge(n) => {
                rw_star_sp(out);
                encode_number(*n, out);
                rw_sp_expunge(out);
                out.push(0x0d);
                out.push(0x0a);
                assert(final(out)@ =~= old(out)@ + self.encoded());
            },
            Data::Flags(fs) => {
                rw_star_sp(out);
                rw_flags_sp(out);
                encode_flag_list(fs, out);
                out.push(0x0d);
                out.push(0x0a);
                assert(final(out)@ =~= old(out)@ + self.encoded());
            },
            Data::Search(ns) => {
                rw_star_sp(out);
                rw_search(out);
                let mut i: usize = 0;
                while i < ns.len()
                    invariant
                        0 <= i <= ns@.len(),
                        out@ == old(out)@ + rtok_star_sp() + rtok_search()
                            + encoded_search_numbers(ns@.subrange(0, i as int)),
                    decreases ns@.len() - i,
                {
                    out.push(0x20);
                    encode_number(ns[i], out);
                    proof {
                        let pre = ns@.subrange(0, i as int);
                        assert(ns@.subrange(0, i + 1) =~= pre.push(ns@[i as int]));
                        lemma_search_numbers_push(pre, ns@[i as int]);
                        assert(out@ =~= old(out)@ + rtok_star_sp() + rtok_search()
                            + encoded_search_numbers(ns@.subrange(0, i + 1)));
                    }
                    i += 1;
                }
                proof {
                    assert(ns@.subrange(0, ns@.len() as int) =~= ns@);
                }
                out.push(0x0d);
                out.push(0x0a);
                assert(final(out)@ =~= old(out)@ + self.encoded());
            },
        }
    }
}

/// A complete server response.
#[derive(Debug, Clone, PartialEq, Eq)]
pub enum Response {
    Status(Status),
    Data(Data),
    /// A continuation request: the server is ready for more of an
    /// in-progress command, notably literal payload bytes.
    Continue(Text),
}

impl Response {
    pub open spec fn wf(&self) -> bool {
        match self {
            Response::Status(s) => s.wf(),
            Response::Data(d) => d.wf(),
            Response::Continue(t) => t.wf(),
        }
    }

    pub open spec fn encoded(&self) -> Seq<u8> {
        match self {
            Response::Status(s) => s.encoded(),
            Response::Data(d) => d.encoded(),
            Response::Continue(t) => rtok_plus_sp() + t.encoded() + seq![0x0du8, 0x0au8],
        }
    }

    pub fn encode(&self, out: &mut Vec<u8>)
        ensures
            final(out)@ == old(out)@ + self.encoded(),
    {
        match self {
            Response::Status(s) => s.encode(out),
            Response::Data(d) => d.encode(out),
            Response::Continue(t) => {
                rw_plus_sp(out);
                t.encode(out);
                out.push(0x0d);
                out.push(0x0a);
                assert(final(out)@ =~= old(out)@ + self.encoded());
            },
        }
    }

    /// The wire form as a fresh byte vector.
    pub fn to_bytes(&self) -> (r: Vec<u8>)
        ensures
            r@ == self.encoded(),
    {
        let mut out = Vec::new();
        self.encode(&mut out);
        assert(out@ =~= self.encoded());
        out
    }
}

} // verus!
