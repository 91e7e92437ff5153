//! Message envelope metadata: a fixed-order tuple of nullable fields, as
//! returned by the ENVELOPE fetch item.

use vstd::prelude::*;
use crate::primitive::{NString, joined, lemma_joined_push};

verus! {

/// One electronic-mail address of an envelope address list.
#[derive(Debug, Clone, PartialEq, Eq)]
pub struct Address {
    /// Personal name.
    pub name: NString,
    /// At-domain-list (source route).
    pub adl: NString,
    /// Mailbox name (the part before `@`).
    pub mailbox: NString,
    /// Host name (the part after `@`).
    pub host: NString,
}

impl Address {
    pub open spec fn wf(&self) -> bool {
        self.name.wf() && self.adl.wf() && self.mailbox.wf() && self.host.wf()
    }

    /// The wire form: the four fields parenthesized, space-separated.
    pub open spec fn encoded(&self) -> Seq<u8> {
        seq![0x28u8] + self.name.encoded() + seq![0x20u8] + self.adl.encoded() + seq![0x20u8]
            + self.mailbox.encoded() + seq![0x20u8] + self.host.encoded() + seq![0x29u8]
    }

    pub fn encode(&self, out: &mut Vec<u8>)
        ensures
            final(out)@ == old(out)@ + self.encoded(),
    {
        out.push(0x28);
        self.name.encode(out);
        out.push(0x20);
        self.adl.encode(out);
        out.push(0x20);
        self.mailbox.encode(out);
        out.push(0x20);
        self.host.encode(out);
        out.push(0x29);
        assert(final(out)@ =~= old(out)@ + self.encoded());
    }
}

/// An address list renders as `NIL` when empty, else as the parenthesized
/// concatenation of its addresses.
pub open spec fn encoded_address_list(l: Seq<Address>) -> Seq<u8> {
    if l.len() == 0 {
        seq![0x4eu8, 0x49u8, 0x4cu8]
    } else {
        seq![0x28u8] + joined(l.map_values(|a: Address| a.encoded()), Seq::empty()) + seq![0x29u8]
    }
}

pub fn encode_address_list(l: &Vec<Address>, out: &mut Vec<u8>)
    ensures
        final(out)@ == old(out)@ + encoded_address_list(l@),
{
    if l.len() == 0 {
        out.push(0x4e);
        out.push(0x49);
        out.push(0x4c);
        assert(final(out)@ =~= old(out)@ + encoded_address_list(l@));
        return ;
    }
    let ghost parts = l@.map_values(|a: Address| a.encoded());
    out.push(0x28);
    let mut i: usize = 0;
    while i < l.len()
        invariant
            0 <= i <= l@.len(),
            parts == l@.map_values(|a: Address| a.encoded()),
            out@ == old(out)@ + seq![0x28u8] + joined(
                parts.subrange(0, i as int),
                Seq::<u8>::empty(),
            ),
        decreases l@.len() - i,
    {
        l[i].encode(out);
        proof {
            let pre = parts.subrange(0, i as int);
            assert(parts.subrange(0, i + 1) =~= pre.push(parts[i as int]));
            lemma_joined_push(pre, parts[i as int], Seq::<u8>::empty());
            assert(out@ =~= old(out)@ + seq![0x28u8] + joined(
                parts.subrange(0, i + 1),
                Seq::<u8>::empty(),
            ));
        }
        i += 1;
    }
    out.push(0x29);
    proof {
        assert(parts.subrange(0, parts.len() as int) =~= parts);
        assert(final(out)@ =~= old(out)@ + encoded_address_list(l@));
    }
}

/// The envelope structure of a message: fixed-order, nullable
/// address/date/string fields.
#[derive(Debug, Clone, PartialEq, Eq)]
pub struct Envelope {
    pub date: NString,
    pub subject: NString,
    pub from: Vec<Address>,
    pub sender: Vec<Address>,
    pub reply_to: Vec<Address>,
    pub to: Vec<Address>,
    pub cc: Vec<Address>,
    pub bcc: Vec<Address>,
    pub in_reply_to: NString,
    pub message_id: NString,
}

impl Envelope {
    pub open spec fn wf(&self) -> bool {
        &&& self.date.wf()
        &&& self.subject.wf()
        &&& forall|i: int| 0 <= i < self.from@.len() ==> self.from@[i].wf()
        &&& forall|i: int| 0 <= i < self.sender@.len() ==> self.sender@[i].wf()
        &&& forall|i: int| 0 <= i < self.reply_to@.len() ==> self.reply_to@[i].wf()
        &&& forall|i: int| 0 <= i < self.to@.len() ==> self.to@[i].wf()
        &&& forall|i: int| 0 <= i < self.cc@.len() ==> self.cc@[i].wf()
        &&& forall|i: int| 0 <= i < self.bcc@.len() ==> self.bcc@[i].wf()
        &&& self.in_reply_to.wf()
        &&& self.message_id.wf()
    }

    /// The date and subject fields.
    pub open spec fn encoded_header(&self) -> Seq<u8> {
        self.date.encoded() + seq![0x20u8] + self.subject.encoded()
    }

    /// The originator address lists (from, sender, reply-to).
    pub open spec fn encoded_originators(&self) -> Seq<u8> {
        seq![0x20u8] + encoded_address_list(self.from@) + seq![0x20u8] + encoded_address_list(
            self.sender@,
        ) + seq![0x20u8] + encoded_address_list(self.reply_to@)
    }

    /// The recipient address lists (to, cc, bcc).
    pub open spec fn encoded_recipients(&self) -> Seq<u8> {
        seq![0x20u8] + encoded_address_list(self.to@) + seq![0x20u8] + encoded_address_list(
            self.cc@,
        ) + seq![0x20u8] + encoded_address_list(self.bcc@)
    }

    /// The in-reply-to and message-id fields.
    pub open spec fn encoded_trailer(&self) -> Seq<u8> {
        seq![0x20u8] + self.in_reply_to.encoded() + seq![0x20u8] + self.message_id.encoded()
    }

    /// The wire form: the ten fields in RFC order, parenthesized.
    pub open spec fn encoded(&self) -> Seq<u8> {
        seq![0x28u8] + self.encoded_header() + self.encoded_originators()
            + self.encoded_recipients() + self.encoded_trailer() + seq![0x29u8]
    }

    fn encode_originators(&self, out: &mut Vec<u8>)
        ensures
            final(out)@ == old(out)@ + self.encoded_originators(),
    {
        out.push(0x20);
        encode_address_list(&self.from, out);
        out.push(0x20);
        encode_address_list(&self.sender, out);
        out.push(0x20);
        encode_address_list(&self.reply_to, out);
        assert(final(out)@ =~= old(out)@ + self.encoded_originators());
    }

    fn encode_recipients(&self, out: &mut Vec<u8>)
        ensures
            final(out)@ == old(out)@ + self.encoded_recipients(),
    {
        out.push(0x20);
        encode_address_list(&self.to, out);
        out.push(0x20);
        encode_address_list(&self.cc, out);
        out.push(0x20);
        encode_address_list(&self.bcc, out);
        assert(final(out)@ =~= old(out)@ + self.encoded_recipients());
    }

    #[verifier::rlimit(60)]
    pub fn encode(&self, out: &mut Vec<u8>)
        ensures
            final(out)@ == old(out)@ + self.encoded(),
    {
        out.push(0x28);
        self.date.encode(out);
        out.push(0x20);
        self.subject.encode(out);
        assert(out@ =~= old(out)@ + seq![0x28u8] + self.encoded_header());
        self.encode_originators(out);
        self.encode_recipients(out);
        out.push(0x20);
        self.in_reply_to.encode(out);
        out.push(0x20);
        self.message_id.encode(out);
        out.push(0x29);
        assert(final(out)@ =~= old(out)@ + self.encoded());
    }
}

} // verus!
