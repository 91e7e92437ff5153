//! The command data model: flags, mailbox names, dates, fetch attributes,
//! the recursive search-query tree, and the top-level `Command` type, each
//! with its wire encoding.

use vstd::prelude::*;
use crate::ValidationError;
use crate::primitive::{
    Atom, AString, NonEmptyVec, Tag, dec_digits, encode_number, extend_bytes, joined,
    lemma_joined_push, lemma_nev_decreases, upper_seq,
};
use crate::sequence::SequenceSet;

verus! {

// --------------------------------------------------------------------------
// Wire tokens
// --------------------------------------------------------------------------

/// The token `\Answered`.
pub open spec fn tok_backslash_answered() -> Seq<u8> {
    seq![0x5cu8, 0x41u8, 0x6eu8, 0x73u8, 0x77u8, 0x65u8, 0x72u8, 0x65u8, 0x64u8]
}

fn w_backslash_answered(out: &mut Vec<u8>)
    ensures
        final(out)@ == old(out)@ + tok_backslash_answered(),
{
    let w: [u8; 9] = [0x5c, 0x41, 0x6e, 0x73, 0x77, 0x65, 0x72, 0x65, 0x64];
    proof {
        assert(w@ =~= tok_backslash_answered());
    }
    extend_bytes(out, w.as_slice());
}

/// The token `\Flagged`.
pub open spec fn tok_backslash_flagged() -> Seq<u8> {
    seq![0x5cu8, 0x46u8, 0x6cu8, 0x61u8, 0x67u8, 0x67u8, 0x65u8, 0x64u8]
}

fn w_backslash_flagged(out: &mut Vec<u8>)
    ensures
        final(out)@ == old(out)@ + tok_backslash_flagged(),
{
    let w: [u8; 8] = [0x5c, 0x46, 0x6c, 0x61, 0x67, 0x67, 0x65, 0x64];
    proof {
        assert(w@ =~= tok_backslash_flagged());
    }
    extend_bytes(out, w.as_slice());
}

/// The token `\Deleted`.
pub open spec fn tok_backslash_deleted() -> Seq<u8> {
    seq![0x5cu8, 0x44u8, 0x65u8, 0x6cu8, 0x65u8, 0x74u8, 0x65u8, 0x64u8]
}

fn w_backslash_deleted(out: &mut Vec<u8>)
    ensures
        final(out)@ == old(out)@ + tok_backslash_deleted(),
{
    let w: [u8; 8] = [0x5c, 0x44, 0x65, 0x6c, 0x65, 0x74, 0x65, 0x64];
    proof {
        assert(w@ =~= tok_backslash_deleted());
    }
    extend_bytes(out, w.as_slice());
}

/// The token `\Seen`.
pub open spec fn tok_backslash_seen() -> Seq<u8> {
    seq![0x5cu8, 0x53u8, 0x65u8, 0x65u8, 0x6eu8]
}

fn w_backslash_seen(out: &mut Vec<u8>)
    ensures
        final(out)@ == old(out)@ + tok_backslash_seen(),
{
    let w: [u8; 5] = [0x5c, 0x53, 0x65, 0x65, 0x6e];
    proof {
        assert(w@ =~= tok_backslash_seen());
    }
    extend_bytes(out, w.as_slice());
}

/// The token `\Draft`.
pub open spec fn tok_backslash_draft() -> Seq<u8> {
    seq![0x5cu8, 0x44u8, 0x72u8, 0x61u8, 0x66u8, 0x74u8]
}

fn w_backslash_draft(out: &mut Vec<u8>)
    ensures
        final(out)@ == old(out)@ + tok_backslash_draft(),
{
    let w: [u8; 6] = [0x5c, 0x44, 0x72, 0x61, 0x66, 0x74];
    proof {
        assert(w@ =~= tok_backslash_draft());
    }
    extend_bytes(out, w.as_slice());
}

/// The token `\Recent`.
pub open spec fn tok_backslash_recent() -> Seq<u8> {
    seq![0x5cu8, 0x52u8, 0x65u8, 0x63u8, 0x65u8, 0x6eu8, 0x74u8]
}

fn w_backslash_recent(out: &mut Vec<u8>)
    ensures
        final(out)@ == old(out)@ + tok_backslash_recent(),
{
    let w: [u8; 7] = [0x5c, 0x52, 0x65, 0x63, 0x65, 0x6e, 0x74];
    proof {
        assert(w@ =~= tok_backslash_recent());
    }
    extend_bytes(out, w.as_slice());
}

/// The token `\`.
pub open spec fn tok_backslash() -> Seq<u8> {
    seq![0x5cu8]
}

fn w_backslash(out: &mut Vec<u8>)
    ensures
        final(out)@ == old(out)@ + tok_backslash(),
{
    let w: [u8; 1] = [0x5c];
    proof {
        assert(w@ =~= tok_backslash());
    }
    extend_bytes(out, w.as_slice());
}

/// The token `CAPABILITY`.
pub open spec fn tok_capability() -> Seq<u8> {
    seq![0x43u8, 0x41u8, 0x50u8, 0x41u8, 0x42u8, 0x49u8, 0x4cu8, 0x49u8, 0x54u8, 0x59u8]
}

fn w_capability(out: &mut Vec<u8>)
    ensures
        final(out)@ == old(out)@ + tok_capability(),
{
    let w: [u8; 10] = [0x43, 0x41, 0x50, 0x41, 0x42, 0x49, 0x4c, 0x49, 0x54, 0x59];
    proof {
        assert(w@ =~= tok_capability());
    }
    extend_bytes(out, w.as_slice());
}

/// The token `NOOP`.
pub open spec fn tok_noop() -> Seq<u8> {
    seq![0x4eu8, 0x4fu8, 0x4fu8, 0x50u8]
}

fn w_noop(out: &mut Vec<u8>)
    ensures
        final(out)@ == old(out)@ + tok_noop(),
{
    let w: [u8; 4] = [0x4e, 0x4f, 0x4f, 0x50];
    proof {
        assert(w@ =~= tok_noop());
    }
    extend_bytes(out, w.as_slice());
}

/// The token `LOGOUT`.
pub open spec fn tok_logout() -> Seq<u8> {
    seq![0x4cu8, 0x4fu8, 0x47u8, 0x4fu8, 0x55u8, 0x54u8]
}

fn w_logout(out: &mut Vec<u8>)
    ensures
        final(out)@ == old(out)@ + tok_logout(),
{
    let w: [u8; 6] = [0x4c, 0x4f, 0x47, 0x4f, 0x55, 0x54];
    proof {
        assert(w@ =~= tok_logout());
    }
    extend_bytes(out, w.as_slice());
}

/// The token `STARTTLS`.
pub open spec fn tok_starttls() -> Seq<u8> {
    seq![0x53u8, 0x54u8, 0x41u8, 0x52u8, 0x54u8, 0x54u8, 0x4cu8, 0x53u8]
}

fn w_starttls(out: &mut Vec<u8>)
    ensures
        final(out)@ == old(out)@ + tok_starttls(),
{
    let w: [u8; 8] = [0x53, 0x54, 0x41, 0x52, 0x54, 0x54, 0x4c, 0x53];
    proof {
        assert(w@ =~= tok_starttls());
    }
    extend_bytes(out, w.as_slice());
}

/// The token `CHECK`.
pub open spec fn tok_check() -> Seq<u8> {
    seq![0x43u8, 0x48u8, 0x45u8, 0x43u8, 0x4bu8]
}

fn w_check(out: &mut Vec<u8>)
    ensures
        final(out)@ == old(out)@ + tok_check(),
{
    let w: [u8; 5] = [0x43, 0x48, 0x45, 0x43, 0x4b];
    proof {
        assert(w@ =~= tok_check());
    }
    extend_bytes(out, w.as_slice());
}

/// The token `CLOSE`.
pub open spec fn tok_close() -> Seq<u8> {
    seq![0x43u8, 0x4cu8, 0x4fu8, 0x53u8, 0x45u8]
}

fn w_close(out: &mut Vec<u8>)
    ensures
        final(out)@ == old(out)@ + tok_close(),
{
    let w: [u8; 5] = [0x43, 0x4c, 0x4f, 0x53, 0x45];
    proof {
        assert(w@ =~= tok_close());
    }
    extend_bytes(out, w.as_slice());
}

/// The token `EXPUNGE`.
pub open spec fn tok_expunge() -> Seq<u8> {
    seq![0x45u8, 0x58u8, 0x50u8, 0x55u8, 0x4eu8, 0x47u8, 0x45u8]
}

fn w_expunge(out: &mut Vec<u8>)
    ensures
        final(out)@ == old(out)@ + tok_expunge(),
{
    let w: [u8; 7] = [0x45, 0x58, 0x50, 0x55, 0x4e, 0x47, 0x45];
    proof {
        assert(w@ =~= tok_expunge());
    }
    extend_bytes(out, w.as_slice());
}

/// The token `LOGIN `.
pub open spec fn tok_login_sp() -> Seq<u8> {
    seq![0x4cu8, 0x4fu8, 0x47u8, 0x49u8, 0x4eu8, 0x20u8]
}

fn w_login_sp(out: &mut Vec<u8>)
    ensures
        final(out)@ == old(out)@ + tok_login_sp(),
{
    let w: [u8; 6] = [0x4c, 0x4f, 0x47, 0x49, 0x4e, 0x20];
    proof {
        assert(w@ =~= tok_login_sp());
    }
    extend_bytes(out, w.as_slice());
}

/// The token `SELECT `.
pub open spec fn tok_select_sp() -> Seq<u8> {
    seq![0x53u8, 0x45u8, 0x4cu8, 0x45u8, 0x43u8, 0x54u8, 0x20u8]
}

fn w_select_sp(out: &mut Vec<u8>)
    ensures
        final(out)@ == old(out)@ + tok_select_sp(),
{
    let w: [u8; 7] = [0x53, 0x45, 0x4c, 0x45, 0x43, 0x54, 0x20];
    proof {
        assert(w@ =~= tok_select_sp());
    }
    extend_bytes(out, w.as_slice());
}

/// The token `EXAMINE `.
pub open spec fn tok_examine_sp() -> Seq<u8> {
    seq![0x45u8, 0x58u8, 0x41u8, 0x4du8, 0x49u8, 0x4eu8, 0x45u8, 0x20u8]
}

fn w_examine_sp(out: &mut Vec<u8>)
    ensures
        final(out)@ == old(out)@ + tok_examine_sp(),
{
    let w: [u8; 8] = [0x45, 0x58, 0x41, 0x4d, 0x49, 0x4e, 0x45, 0x20];
    proof {
        assert(w@ =~= tok_examine_sp());
    }
    extend_bytes(out, w.as_slice());
}

/// The token `CREATE `.
pub open spec fn tok_create_sp() -> Seq<u8> {
    seq![0x43u8, 0x52u8, 0x45u8, 0x41u8, 0x54u8, 0x45u8, 0x20u8]
}

fn w_create_sp(out: &mut Vec<u8>)
    ensures
        final(out)@ == old(out)@ + tok_create_sp(),
{
    let w: [u8; 7] = [0x43, 0x52, 0x45, 0x41, 0x54, 0x45, 0x20];
    proof {
        assert(w@ =~= tok_create_sp());
    }
    extend_bytes(out, w.as_slice());
}

/// The token `DELETE `.
pub open spec fn tok_delete_sp() -> Seq<u8> {
    seq![0x44u8, 0x45u8, 0x4cu8, 0x45u8, 0x54u8, 0x45u8, 0x20u8]
}

fn w_delete_sp(out: &mut Vec<u8>)
    ensures
        final(out)@ == old(out)@ + tok_delete_sp(),
{
    let w: [u8; 7] = [0x44, 0x45, 0x4c, 0x45, 0x54, 0x45, 0x20];
    proof {
        assert(w@ =~= tok_delete_sp());
    }
    extend_bytes(out, w.as_slice());
}

/// The token `RENAME `.
pub open spec fn tok_rename_sp() -> Seq<u8> {
    seq![0x52u8, 0x45u8, 0x4eu8, 0x41u8, 0x4du8, 0x45u8, 0x20u8]
}

fn w_rename_sp(out: &mut Vec<u8>)
    ensures
        final(out)@ == old(out)@ + tok_rename_sp(),
{
    let w: [u8; 7] = [0x52, 0x45, 0x4e, 0x41, 0x4d, 0x45, 0x20];
    proof {
        assert(w@ =~= tok_rename_sp());
    }
    extend_bytes(out, w.as_slice());
}

/// The token `SUBSCRIBE `.
pub open spec fn tok_subscribe_sp() -> Seq<u8> {
    seq![0x53u8, 0x55u8, 0x42u8, 0x53u8, 0x43u8, 0x52u8, 0x49u8, 0x42u8, 0x45u8, 0x20u8]
}

fn w_subscribe_sp(out: &mut Vec<u8>)
    ensures
        final(out)@ == old(out)@ + tok_subscribe_sp(),
{
    let w: [u8; 10] = [0x53, 0x55, 0x42, 0x53, 0x43, 0x52, 0x49, 0x42, 0x45, 0x20];
    proof {
        assert(w@ =~= tok_subscribe_sp());
    }
    extend_bytes(out, w.as_slice());
}

/// The token `UNSUBSCRIBE `.
pub open spec fn tok_unsubscribe_sp() -> Seq<u8> {
    seq![0x55u8, 0x4eu8, 0x53u8, 0x55u8, 0x42u8, 0x53u8, 0x43u8, 0x52u8, 0x49u8, 0x42u8, 0x45u8, 0x20u8]
}

fn w_unsubscribe_sp(out: &mut Vec<u8>)
    ensures
        final(out)@ == old(out)@ + tok_unsubscribe_sp(),
{
    let w: [u8; 12] = [0x55, 0x4e, 0x53, 0x55, 0x42, 0x53, 0x43, 0x52, 0x49, 0x42, 0x45, 0x20];
    proof {
        assert(w@ =~= tok_unsubscribe_sp());
    }
    extend_bytes(out, w.as_slice());
}

/// The token `SEARCH`.
pub open spec fn tok_search() -> Seq<u8> {
    seq![0x53u8, 0x45u8, 0x41u8, 0x52u8, 0x43u8, 0x48u8]
}

fn w_search(out: &mut Vec<u8>)
    ensures
        final(out)@ == old(out)@ + tok_search(),
{
    let w: [u8; 6] = [0x53, 0x45, 0x41, 0x52, 0x43, 0x48];
    proof {
        assert(w@ =~= tok_search());
    }
    extend_bytes(out, w.as_slice());
}

/// The token `FETCH `.
pub open spec fn tok_fetch_sp() -> Seq<u8> {
    seq![0x46u8, 0x45u8, 0x54u8, 0x43u8, 0x48u8, 0x20u8]
}

fn w_fetch_sp(out: &mut Vec<u8>)
    ensures
        final(out)@ == old(out)@ + tok_fetch_sp(),
{
    let w: [u8; 6] = [0x46, 0x45, 0x54, 0x43, 0x48, 0x20];
    proof {
        assert(w@ =~= tok_fetch_sp());
    }
    extend_bytes(out, w.as_slice());
}

/// The token `STORE `.
pub open spec fn tok_store_sp() -> Seq<u8> {
    seq![0x53u8, 0x54u8, 0x4fu8, 0x52u8, 0x45u8, 0x20u8]
}

fn w_store_sp(out: &mut Vec<u8>)
    ensures
        final(out)@ == old(out)@ + tok_store_sp(),
{
    let w: [u8; 6] = [0x53, 0x54, 0x4f, 0x52, 0x45, 0x20];
    proof {
        assert(w@ =~= tok_store_sp());
    }
    extend_bytes(out, w.as_slice());
}

/// The token `COPY `.
pub open spec fn tok_copy_sp() -> Seq<u8> {
    seq![0x43u8, 0x4fu8, 0x50u8, 0x59u8, 0x20u8]
}

fn w_copy_sp(out: &mut Vec<u8>)
    ensures
        final(out)@ == old(out)@ + tok_copy_sp(),
{
    let w: [u8; 5] = [0x43, 0x4f, 0x50, 0x59, 0x20];
    proof {
        assert(w@ =~= tok_copy_sp());
    }
    extend_bytes(out, w.as_slice());
}

/// The token `UID `.
pub open spec fn tok_uid_sp() -> Seq<u8> {
    seq![0x55u8, 0x49u8, 0x44u8, 0x20u8]
}

fn w_uid_sp(out: &mut Vec<u8>)
    ensures
        final(out)@ == old(out)@ + tok_uid_sp(),
{
    let w: [u8; 4] = [0x55, 0x49, 0x44, 0x20];
    proof {
        assert(w@ =~= tok_uid_sp());
    }
    extend_bytes(out, w.as_slice());
}

/// The token ` CHARSET `.
pub open spec fn tok_charset_sp() -> Seq<u8> {
    seq![0x20u8, 0x43u8, 0x48u8, 0x41u8, 0x52u8, 0x53u8, 0x45u8, 0x54u8, 0x20u8]
}

fn w_charset_sp(out: &mut Vec<u8>)
    ensures
        final(out)@ == old(out)@ + tok_charset_sp(),
{
    let w: [u8; 9] = [0x20, 0x43, 0x48, 0x41, 0x52, 0x53, 0x45, 0x54, 0x20];
    proof {
        assert(w@ =~= tok_charset_sp());
    }
    extend_bytes(out, w.as_slice());
}

/// The token `INBOX`.
pub open spec fn tok_inbox() -> Seq<u8> {
    seq![0x49u8, 0x4eu8, 0x42u8, 0x4fu8, 0x58u8]
}

fn w_inbox(out: &mut Vec<u8>)
    ensures
        final(out)@ == old(out)@ + tok_inbox(),
{
    let w: [u8; 5] = [0x49, 0x4e, 0x42, 0x4f, 0x58];
    proof {
        assert(w@ =~= tok_inbox());
    }
    extend_bytes(out, w.as_slice());
}

/// The token `ALL`.
pub open spec fn tok_all() -> Seq<u8> {
    seq![0x41u8, 0x4cu8, 0x4cu8]
}

fn w_all(out: &mut Vec<u8>)
    ensures
        final(out)@ == old(out)@ + tok_all(),
{
    let w: [u8; 3] = [0x41, 0x4c, 0x4c];
    proof {
        assert(w@ =~= tok_all());
    }
    extend_bytes(out, w.as_slice());
}

/// The token `FAST`.
pub open spec fn tok_fast() -> Seq<u8> {
    seq![0x46u8, 0x41u8, 0x53u8, 0x54u8]
}

fn w_fast(out: &mut Vec<u8>)
    ensures
        final(out)@ == old(out)@ + tok_fast(),
{
    let w: [u8; 4] = [0x46, 0x41, 0x53, 0x54];
    proof {
        assert(w@ =~= tok_fast());
    }
    extend_bytes(out, w.as_slice());
}

/// The token `FULL`.
pub open spec fn tok_full() -> Seq<u8> {
    seq![0x46u8, 0x55u8, 0x4cu8, 0x4cu8]
}

fn w_full(out: &mut Vec<u8>)
    ensures
        final(out)@ == old(out)@ + tok_full(),
{
    let w: [u8; 4] = [0x46, 0x55, 0x4c, 0x4c];
    proof {
        assert(w@ =~= tok_full());
    }
    extend_bytes(out, w.as_slice());
}

/// The token `BODY`.
pub open spec fn tok_body() -> Seq<u8> {
    seq![0x42u8, 0x4fu8, 0x44u8, 0x59u8]
}

fn w_body(out: &mut Vec<u8>)
    ensures
        final(out)@ == old(out)@ + tok_body(),
{
    let w: [u8; 4] = [0x42, 0x4f, 0x44, 0x59];
    proof {
        assert(w@ =~= tok_body());
    }
    extend_bytes(out, w.as_slice());
}

/// The token `BODY.PEEK`.
pub open spec fn tok_body_peek() -> Seq<u8> {
    seq![0x42u8, 0x4fu8, 0x44u8, 0x59u8, 0x2eu8, 0x50u8, 0x45u8, 0x45u8, 0x4bu8]
}

fn w_body_peek(out: &mut Vec<u8>)
    ensures
        final(out)@ == old(out)@ + tok_body_peek(),
{
    let w: [u8; 9] = [0x42, 0x4f, 0x44, 0x59, 0x2e, 0x50, 0x45, 0x45, 0x4b];
    proof {
        assert(w@ =~= tok_body_peek());
    }
    extend_bytes(out, w.as_slice());
}

/// The token `BODYSTRUCTURE`.
pub open spec fn tok_bodystructure() -> Seq<u8> {
    seq![0x42u8, 0x4fu8, 0x44u8, 0x59u8, 0x53u8, 0x54u8, 0x52u8, 0x55u8, 0x43u8, 0x54u8, 0x55u8, 0x52u8, 0x45u8]
}

fn w_bodystructure(out: &mut Vec<u8>)
    ensures
        final(out)@ == old(out)@ + tok_bodystructure(),
{
    let w: [u8; 13] = [0x42, 0x4f, 0x44, 0x59, 0x53, 0x54, 0x52, 0x55, 0x43, 0x54, 0x55, 0x52, 0x45];
    proof {
        assert(w@ =~= tok_bodystructure());
    }
    extend_bytes(out, w.as_slice());
}

/// The token `ENVELOPE`.
pub open spec fn tok_envelope_att() -> Seq<u8> {
    seq![0x45u8, 0x4eu8, 0x56u8, 0x45u8, 0x4cu8, 0x4fu8, 0x50u8, 0x45u8]
}

fn w_envelope_att(out: &mut Vec<u8>)
    ensures
        final(out)@ == old(out)@ + tok_envelope_att(),
{
    let w: [u8; 8] = [0x45, 0x4e, 0x56, 0x45, 0x4c, 0x4f, 0x50, 0x45];
    proof {
        assert(w@ =~= tok_envelope_att());
    }
    extend_bytes(out, w.as_slice());
}

/// The token `FLAGS`.
pub open spec fn tok_flags_att() -> Seq<u8> {
    seq![0x46u8, 0x4cu8, 0x41u8, 0x47u8, 0x53u8]
}

fn w_flags_att(out: &mut Vec<u8>)
    ensures
        final(out)@ == old(out)@ + tok_flags_att(),
{
    let w: [u8; 5] = [0x46, 0x4c, 0x41, 0x47, 0x53];
    proof {
        assert(w@ =~= tok_flags_att());
    }
    extend_bytes(out, w.as_slice());
}

/// The token `INTERNALDATE`.
pub open spec fn tok_internaldate() -> Seq<u8> {
    seq![0x49u8, 0x4eu8, 0x54u8, 0x45u8, 0x52u8, 0x4eu8, 0x41u8, 0x4cu8, 0x44u8, 0x41u8, 0x54u8, 0x45u8]
}

fn w_internaldate(out: &mut Vec<u8>)
    ensures
        final(out)@ == old(out)@ + tok_internaldate(),
{
    let w: [u8; 12] = [0x49, 0x4e, 0x54, 0x45, 0x52, 0x4e, 0x41, 0x4c, 0x44, 0x41, 0x54, 0x45];
    proof {
        assert(w@ =~= tok_internaldate());
    }
    extend_bytes(out, w.as_slice());
}

/// The token `RFC822`.
pub open spec fn tok_rfc822() -> Seq<u8> {
    seq![0x52u8, 0x46u8, 0x43u8, 0x38u8, 0x32u8, 0x32u8]
}

fn w_rfc822(out: &mut Vec<u8>)
    ensures
        final(out)@ == old(out)@ + tok_rfc822(),
{
    let w: [u8; 6] = [0x52, 0x46, 0x43, 0x38, 0x32, 0x32];
    proof {
        assert(w@ =~= tok_rfc822());
    }
    extend_bytes(out, w.as_slice());
}

/// The token `RFC822.HEADER`.
pub open spec fn tok_rfc822_header() -> Seq<u8> {
    seq![0x52u8, 0x46u8, 0x43u8, 0x38u8, 0x32u8, 0x32u8, 0x2eu8, 0x48u8, 0x45u8, 0x41u8, 0x44u8, 0x45u8, 0x52u8]
}

fn w_rfc822_header(out: &mut Vec<u8>)
    ensures
        final(out)@ == old(out)@ + tok_rfc822_header(),
{
    let w: [u8; 13] = [0x52, 0x46, 0x43, 0x38, 0x32, 0x32, 0x2e, 0x48, 0x45, 0x41, 0x44, 0x45, 0x52];
    proof {
        assert(w@ =~= tok_rfc822_header());
    }
    extend_bytes(out, w.as_slice());
}

/// The token `RFC822.SIZE`.
pub open spec fn tok_rfc822_size() -> Seq<u8> {
    seq![0x52u8, 0x46u8, 0x43u8, 0x38u8, 0x32u8, 0x32u8, 0x2eu8, 0x53u8, 0x49u8, 0x5au8, 0x45u8]
}

fn w_rfc822_size(out: &mut Vec<u8>)
    ensures
        final(out)@ == old(out)@ + tok_rfc822_size(),
{
    let w: [u8; 11] = [0x52, 0x46, 0x43, 0x38, 0x32, 0x32, 0x2e, 0x53, 0x49, 0x5a, 0x45];
    proof {
        assert(w@ =~= tok_rfc822_size());
    }
    extend_bytes(out, w.as_slice());
}

/// The token `RFC822.TEXT`.
pub open spec fn tok_rfc822_text() -> Seq<u8> {
    seq![0x52u8, 0x46u8, 0x43u8, 0x38u8, 0x32u8, 0x32u8, 0x2eu8, 0x54u8, 0x45u8, 0x58u8, 0x54u8]
}

fn w_rfc822_text(out: &mut Vec<u8>)
    ensures
        final(out)@ == old(out)@ + tok_rfc822_text(),
{
    let w: [u8; 11] = [0x52, 0x46, 0x43, 0x38, 0x32, 0x32, 0x2e, 0x54, 0x45, 0x58, 0x54];
    proof {
        assert(w@ =~= tok_rfc822_text());
    }
    extend_bytes(out, w.as_slice());
}

/// The token `UID`.
pub open spec fn tok_uid() -> Seq<u8> {
    seq![0x55u8, 0x49u8, 0x44u8]
}

fn w_uid(out: &mut Vec<u8>)
    ensures
        final(out)@ == old(out)@ + tok_uid(),
{
    let w: [u8; 3] = [0x55, 0x49, 0x44];
    proof {
        assert(w@ =~= tok_uid());
    }
    extend_bytes(out, w.as_slice());
}

/// The token `HEADER`.
pub open spec fn tok_header() -> Seq<u8> {
    seq![0x48u8, 0x45u8, 0x41u8, 0x44u8, 0x45u8, 0x52u8]
}

fn w_header(out: &mut Vec<u8>)
    ensures
        final(out)@ == old(out)@ + tok_header(),
{
    let w: [u8; 6] = [0x48, 0x45, 0x41, 0x44, 0x45, 0x52];
    proof {
        assert(w@ =~= tok_header());
    }
    extend_bytes(out, w.as_slice());
}

/// The token `HEADER.FIELDS `.
pub open spec fn tok_header_fields_sp() -> Seq<u8> {
    seq![0x48u8, 0x45u8, 0x41u8, 0x44u8, 0x45u8, 0x52u8, 0x2eu8, 0x46u8, 0x49u8, 0x45u8, 0x4cu8, 0x44u8, 0x53u8, 0x20u8]
}

fn w_header_fields_sp(out: &mut Vec<u8>)
    ensures
        final(out)@ == old(out)@ + tok_header_fields_sp(),
{
    let w: [u8; 14] = [0x48, 0x45, 0x41, 0x44, 0x45, 0x52, 0x2e, 0x46, 0x49, 0x45, 0x4c, 0x44, 0x53, 0x20];
    proof {
        assert(w@ =~= tok_header_fields_sp());
    }
    extend_bytes(out, w.as_slice());
}

/// The token `HEADER.FIELDS.NOT `.
pub open spec fn tok_header_fields_not_sp() -> Seq<u8> {
    seq![0x48u8, 0x45u8, 0x41u8, 0x44u8, 0x45u8, 0x52u8, 0x2eu8, 0x46u8, 0x49u8, 0x45u8, 0x4cu8, 0x44u8, 0x53u8, 0x2eu8, 0x4eu8, 0x4fu8, 0x54u8, 0x20u8]
}

fn w_header_fields_not_sp(out: &mut Vec<u8>)
    ensures
        final(out)@ == old(out)@ + tok_header_fields_not_sp(),
{
    let w: [u8; 18] = [0x48, 0x45, 0x41, 0x44, 0x45, 0x52, 0x2e, 0x46, 0x49, 0x45, 0x4c, 0x44, 0x53, 0x2e, 0x4e, 0x4f, 0x54, 0x20];
    proof {
        assert(w@ =~= tok_header_fields_not_sp());
    }
    extend_bytes(out, w.as_slice());
}

/// The token `TEXT`.
pub open spec fn tok_text() -> Seq<u8> {
    seq![0x54u8, 0x45u8, 0x58u8, 0x54u8]
}

fn w_text(out: &mut Vec<u8>)
    ensures
        final(out)@ == old(out)@ + tok_text(),
{
    let w: [u8; 4] = [0x54, 0x45, 0x58, 0x54];
    proof {
        assert(w@ =~= tok_text());
    }
    extend_bytes(out, w.as_slice());
}

/// The token `MIME`.
pub open spec fn tok_mime() -> Seq<u8> {
    seq![0x4du8, 0x49u8, 0x4du8, 0x45u8]
}

fn w_mime(out: &mut Vec<u8>)
    ensures
        final(out)@ == old(out)@ + tok_mime(),
{
    let w: [u8; 4] = [0x4d, 0x49, 0x4d, 0x45];
    proof {
        assert(w@ =~= tok_mime());
    }
    extend_bytes(out, w.as_slice());
}

/// The token `FLAGS`.
pub open spec fn tok_flags_kw() -> Seq<u8> {
    seq![0x46u8, 0x4cu8, 0x41u8, 0x47u8, 0x53u8]
}

fn w_flags_kw(out: &mut Vec<u8>)
    ensures
        final(out)@ == old(out)@ + tok_flags_kw(),
{
    let w: [u8; 5] = [0x46, 0x4c, 0x41, 0x47, 0x53];
    proof {
        assert(w@ =~= tok_flags_kw());
    }
    extend_bytes(out, w.as_slice());
}

/// The token `+FLAGS`.
pub open spec fn tok_plus_flags() -> Seq<u8> {
    seq![0x2bu8, 0x46u8, 0x4cu8, 0x41u8, 0x47u8, 0x53u8]
}

fn w_plus_flags(out: &mut Vec<u8>)
    ensures
        final(out)@ == old(out)@ + tok_plus_flags(),
{
    let w: [u8; 6] = [0x2b, 0x46, 0x4c, 0x41, 0x47, 0x53];
    proof {
        assert(w@ =~= tok_plus_flags());
    }
    extend_bytes(out, w.as_slice());
}

/// The token `-FLAGS`.
pub open spec fn tok_minus_flags() -> Seq<u8> {
    seq![0x2du8, 0x46u8, 0x4cu8, 0x41u8, 0x47u8, 0x53u8]
}

fn w_minus_flags(out: &mut Vec<u8>)
    ensures
        final(out)@ == old(out)@ + tok_minus_flags(),
{
    let w: [u8; 6] = [0x2d, 0x46, 0x4c, 0x41, 0x47, 0x53];
    proof {
        assert(w@ =~= tok_minus_flags());
    }
    extend_bytes(out, w.as_slice());
}

/// The token `.SILENT`.
pub open spec fn tok_silent() -> Seq<u8> {
    seq![0x2eu8, 0x53u8, 0x49u8, 0x4cu8, 0x45u8, 0x4eu8, 0x54u8]
}

fn w_silent(out: &mut Vec<u8>)
    ensures
        final(out)@ == old(out)@ + tok_silent(),
{
    let w: [u8; 7] = [0x2e, 0x53, 0x49, 0x4c, 0x45, 0x4e, 0x54];
    proof {
        assert(w@ =~= tok_silent());
    }
    extend_bytes(out, w.as_slice());
}

/// The token `ANSWERED`.
pub open spec fn tok_answered() -> Seq<u8> {
    seq![0x41u8, 0x4eu8, 0x53u8, 0x57u8, 0x45u8, 0x52u8, 0x45u8, 0x44u8]
}

fn w_answered(out: &mut Vec<u8>)
    ensures
        final(out)@ == old(out)@ + tok_answered(),
{
    let w: [u8; 8] = [0x41, 0x4e, 0x53, 0x57, 0x45, 0x52, 0x45, 0x44];
    proof {
        assert(w@ =~= tok_answered());
    }
    extend_bytes(out, w.as_slice());
}

/// The token `BCC `.
pub open spec fn tok_bcc_sp() -> Seq<u8> {
    seq![0x42u8, 0x43u8, 0x43u8, 0x20u8]
}

fn w_bcc_sp(out: &mut Vec<u8>)
    ensures
        final(out)@ == old(out)@ + tok_bcc_sp(),
{
    let w: [u8; 4] = [0x42, 0x43, 0x43, 0x20];
    proof {
        assert(w@ =~= tok_bcc_sp());
    }
    extend_bytes(out, w.as_slice());
}

/// The token `BEFORE `.
pub open spec fn tok_before_sp() -> Seq<u8> {
    seq![0x42u8, 0x45u8, 0x46u8, 0x4fu8, 0x52u8, 0x45u8, 0x20u8]
}

fn w_before_sp(out: &mut Vec<u8>)
    ensures
        final(out)@ == old(out)@ + tok_before_sp(),
{
    let w: [u8; 7] = [0x42, 0x45, 0x46, 0x4f, 0x52, 0x45, 0x20];
    proof {
        assert(w@ =~= tok_before_sp());
    }
    extend_bytes(out, w.as_slice());
}

/// The token `BODY `.
pub open spec fn tok_body_sp() -> Seq<u8> {
    seq![0x42u8, 0x4fu8, 0x44u8, 0x59u8, 0x20u8]
}

fn w_body_sp(out: &mut Vec<u8>)
    ensures
        final(out)@ == old(out)@ + tok_body_sp(),
{
    let w: [u8; 5] = [0x42, 0x4f, 0x44, 0x59, 0x20];
    proof {
        assert(w@ =~= tok_body_sp());
    }
    extend_bytes(out, w.as_slice());
}

/// The token `CC `.
pub open spec fn tok_cc_sp() -> Seq<u8> {
    seq![0x43u8, 0x43u8, 0x20u8]
}

fn w_cc_sp(out: &mut Vec<u8>)
    ensures
        final(out)@ == old(out)@ + tok_cc_sp(),
{
    let w: [u8; 3] = [0x43, 0x43, 0x20];
    proof {
        assert(w@ =~= tok_cc_sp());
    }
    extend_bytes(out, w.as_slice());
}

/// The token `DELETED`.
pub open spec fn tok_deleted() -> Seq<u8> {
    seq![0x44u8, 0x45u8, 0x4cu8, 0x45u8, 0x54u8, 0x45u8, 0x44u8]
}

fn w_deleted(out: &mut Vec<u8>)
    ensures
        final(out)@ == old(out)@ + tok_deleted(),
{
    let w: [u8; 7] = [0x44, 0x45, 0x4c, 0x45, 0x54, 0x45, 0x44];
    proof {
        assert(w@ =~= tok_deleted());
    }
    extend_bytes(out, w.as_slice());
}

/// The token `DRAFT`.
pub open spec fn tok_draft() -> Seq<u8> {
    seq![0x44u8, 0x52u8, 0x41u8, 0x46u8, 0x54u8]
}

fn w_draft(out: &mut Vec<u8>)
    ensures
        final(out)@ == old(out)@ + tok_draft(),
{
    let w: [u8; 5] = [0x44, 0x52, 0x41, 0x46, 0x54];
    proof {
        assert(w@ =~= tok_draft());
    }
    extend_bytes(out, w.as_slice());
}

/// The token `FLAGGED`.
pub open spec fn tok_flagged() -> Seq<u8> {
    seq![0x46u8, 0x4cu8, 0x41u8, 0x47u8, 0x47u8, 0x45u8, 0x44u8]
}

fn w_flagged(out: &mut Vec<u8>)
    ensures
        final(out)@ == old(out)@ + tok_flagged(),
{
    let w: [u8; 7] = [0x46, 0x4c, 0x41, 0x47, 0x47, 0x45, 0x44];
    proof {
        assert(w@ =~= tok_flagged());
    }
    extend_bytes(out, w.as_slice());
}

/// The token `FROM `.
pub open spec fn tok_from_sp() -> Seq<u8> {
    seq![0x46u8, 0x52u8, 0x4fu8, 0x4du8, 0x20u8]
}

fn w_from_sp(out: &mut Vec<u8>)
    ensures
        final(out)@ == old(out)@ + tok_from_sp(),
{
    let w: [u8; 5] = [0x46, 0x52, 0x4f, 0x4d, 0x20];
    proof {
        assert(w@ =~= tok_from_sp());
    }
    extend_bytes(out, w.as_slice());
}

/// The token `HEADER `.
pub open spec fn tok_header_sp() -> Seq<u8> {
    seq![0x48u8, 0x45u8, 0x41u8, 0x44u8, 0x45u8, 0x52u8, 0x20u8]
}

fn w_header_sp(out: &mut Vec<u8>)
    ensures
        final(out)@ == old(out)@ + tok_header_sp(),
{
    let w: [u8; 7] = [0x48, 0x45, 0x41, 0x44, 0x45, 0x52, 0x20];
    proof {
        assert(w@ =~= tok_header_sp());
    }
    extend_bytes(out, w.as_slice());
}

/// The token `KEYWORD `.
pub open spec fn tok_keyword_sp() -> Seq<u8> {
    seq![0x4bu8, 0x45u8, 0x59u8, 0x57u8, 0x4fu8, 0x52u8, 0x44u8, 0x20u8]
}

fn w_keyword_sp(out: &mut Vec<u8>)
    ensures
        final(out)@ == old(out)@ + tok_keyword_sp(),
{
    let w: [u8; 8] = [0x4b, 0x45, 0x59, 0x57, 0x4f, 0x52, 0x44, 0x20];
    proof {
        assert(w@ =~= tok_keyword_sp());
    }
    extend_bytes(out, w.as_slice());
}

/// The token `LARGER `.
pub open spec fn tok_larger_sp() -> Seq<u8> {
    seq![0x4cu8, 0x41u8, 0x52u8, 0x47u8, 0x45u8, 0x52u8, 0x20u8]
}

fn w_larger_sp(out: &mut Vec<u8>)
    ensures
        final(out)@ == old(out)@ + tok_larger_sp(),
{
    let w: [u8; 7] = [0x4c, 0x41, 0x52, 0x47, 0x45, 0x52, 0x20];
    proof {
        assert(w@ =~= tok_larger_sp());
    }
    extend_bytes(out, w.as_slice());
}

/// The token `NEW`.
pub open spec fn tok_new() -> Seq<u8> {
    seq![0x4eu8, 0x45u8, 0x57u8]
}

fn w_new(out: &mut Vec<u8>)
    ensures
        final(out)@ == old(out)@ + tok_new(),
{
    let w: [u8; 3] = [0x4e, 0x45, 0x57];
    proof {
        assert(w@ =~= tok_new());
    }
    extend_bytes(out, w.as_slice());
}

/// The token `NOT `.
pub open spec fn tok_not_sp() -> Seq<u8> {
    seq![0x4eu8, 0x4fu8, 0x54u8, 0x20u8]
}

fn w_not_sp(out: &mut Vec<u8>)
    ensures
        final(out)@ == old(out)@ + tok_not_sp(),
{
    let w: [u8; 4] = [0x4e, 0x4f, 0x54, 0x20];
    proof {
        assert(w@ =~= tok_not_sp());
    }
    extend_bytes(out, w.as_slice());
}

/// The token `OLD`.
pub open spec fn tok_old() -> Seq<u8> {
    seq![0x4fu8, 0x4cu8, 0x44u8]
}

fn w_old(out: &mut Vec<u8>)
    ensures
        final(out)@ == old(out)@ + tok_old(),
{
    let w: [u8; 3] = [0x4f, 0x4c, 0x44];
    proof {
        assert(w@ =~= tok_old());
    }
    extend_bytes(out, w.as_slice());
}

/// The token `ON `.
pub open spec fn tok_on_sp() -> Seq<u8> {
    seq![0x4fu8, 0x4eu8, 0x20u8]
}

fn w_on_sp(out: &mut Vec<u8>)
    ensures
        final(out)@ == old(out)@ + tok_on_sp(),
{
    let w: [u8; 3] = [0x4f, 0x4e, 0x20];
    proof {
        assert(w@ =~= tok_on_sp());
    }
    extend_bytes(out, w.as_slice());
}

/// The token `OR `.
pub open spec fn tok_or_sp() -> Seq<u8> {
    seq![0x4fu8, 0x52u8, 0x20u8]
}

fn w_or_sp(out: &mut Vec<u8>)
    ensures
        final(out)@ == old(out)@ + tok_or_sp(),
{
    let w: [u8; 3] = [0x4f, 0x52, 0x20];
    proof {
        assert(w@ =~= tok_or_sp());
    }
    extend_bytes(out, w.as_slice());
}

/// The token `RECENT`.
pub open spec fn tok_recent() -> Seq<u8> {
    seq![0x52u8, 0x45u8, 0x43u8, 0x45u8, 0x4eu8, 0x54u8]
}

fn w_recent(out: &mut Vec<u8>)
    ensures
        final(out)@ == old(out)@ + tok_recent(),
{
    let w: [u8; 6] = [0x52, 0x45, 0x43, 0x45, 0x4e, 0x54];
    proof {
        assert(w@ =~= tok_recent());
    }
    extend_bytes(out, w.as_slice());
}

/// The token `SEEN`.
pub open spec fn tok_seen() -> Seq<u8> {
    seq![0x53u8, 0x45u8, 0x45u8, 0x4eu8]
}

fn w_seen(out: &mut Vec<u8>)
    ensures
        final(out)@ == old(out)@ + tok_seen(),
{
    let w: [u8; 4] = [0x53, 0x45, 0x45, 0x4e];
    proof {
        assert(w@ =~= tok_seen());
    }
    extend_bytes(out, w.as_slice());
}

/// The token `SENTBEFORE `.
pub open spec fn tok_sentbefore_sp() -> Seq<u8> {
    seq![0x53u8, 0x45u8, 0x4eu8, 0x54u8, 0x42u8, 0x45u8, 0x46u8, 0x4fu8, 0x52u8, 0x45u8, 0x20u8]
}

fn w_sentbefore_sp(out: &mut Vec<u8>)
    ensures
        final(out)@ == old(out)@ + tok_sentbefore_sp(),
{
    let w: [u8; 11] = [0x53, 0x45, 0x4e, 0x54, 0x42, 0x45, 0x46, 0x4f, 0x52, 0x45, 0x20];
    proof {
        assert(w@ =~= tok_sentbefore_sp());
    }
    extend_bytes(out, w.as_slice());
}

/// The token `SENTON `.
pub open spec fn tok_senton_sp() -> Seq<u8> {
    seq![0x53u8, 0x45u8, 0x4eu8, 0x54u8, 0x4fu8, 0x4eu8, 0x20u8]
}

fn w_senton_sp(out: &mut Vec<u8>)
    ensures
        final(out)@ == old(out)@ + tok_senton_sp(),
{
    let w: [u8; 7] = [0x53, 0x45, 0x4e, 0x54, 0x4f, 0x4e, 0x20];
    proof {
        assert(w@ =~= tok_senton_sp());
    }
    extend_bytes(out, w.as_slice());
}

/// The token `SENTSINCE `.
pub open spec fn tok_sentsince_sp() -> Seq<u8> {
    seq![0x53u8, 0x45u8, 0x4eu8, 0x54u8, 0x53u8, 0x49u8, 0x4eu8, 0x43u8, 0x45u8, 0x20u8]
}

fn w_sentsince_sp(out: &mut Vec<u8>)
    ensures
        final(out)@ == old(out)@ + tok_sentsince_sp(),
{
    let w: [u8; 10] = [0x53, 0x45, 0x4e, 0x54, 0x53, 0x49, 0x4e, 0x43, 0x45, 0x20];
    proof {
        assert(w@ =~= tok_sentsince_sp());
    }
    extend_bytes(out, w.as_slice());
}

/// The token `SINCE `.
pub open spec fn tok_since_sp() -> Seq<u8> {
    seq![0x53u8, 0x49u8, 0x4eu8, 0x43u8, 0x45u8, 0x20u8]
}

fn w_since_sp(out: &mut Vec<u8>)
    ensures
        final(out)@ == old(out)@ + tok_since_sp(),
{
    let w: [u8; 6] = [0x53, 0x49, 0x4e, 0x43, 0x45, 0x20];
    proof {
        assert(w@ =~= tok_since_sp());
    }
    extend_bytes(out, w.as_slice());
}

/// The token `SMALLER `.
pub open spec fn tok_smaller_sp() -> Seq<u8> {
    seq![0x53u8, 0x4du8, 0x41u8, 0x4cu8, 0x4cu8, 0x45u8, 0x52u8, 0x20u8]
}

fn w_smaller_sp(out: &mut Vec<u8>)
    ensures
        final(out)@ == old(out)@ + tok_smaller_sp(),
{
    let w: [u8; 8] = [0x53, 0x4d, 0x41, 0x4c, 0x4c, 0x45, 0x52, 0x20];
    proof {
        assert(w@ =~= tok_smaller_sp());
    }
    extend_bytes(out, w.as_slice());
}

/// The token `SUBJECT `.
pub open spec fn tok_subject_sp() -> Seq<u8> {
    seq![0x53u8, 0x55u8, 0x42u8, 0x4au8, 0x45u8, 0x43u8, 0x54u8, 0x20u8]
}

fn w_subject_sp(out: &mut Vec<u8>)
    ensures
        final(out)@ == old(out)@ + tok_subject_sp(),
{
    let w: [u8; 8] = [0x53, 0x55, 0x42, 0x4a, 0x45, 0x43, 0x54, 0x20];
    proof {
        assert(w@ =~= tok_subject_sp());
    }
    extend_bytes(out, w.as_slice());
}

/// The token `TEXT `.
pub open spec fn tok_text_sp() -> Seq<u8> {
    seq![0x54u8, 0x45u8, 0x58u8, 0x54u8, 0x20u8]
}

fn w_text_sp(out: &mut Vec<u8>)
    ensures
        final(out)@ == old(out)@ + tok_text_sp(),
{
    let w: [u8; 5] = [0x54, 0x45, 0x58, 0x54, 0x20];
    proof {
        assert(w@ =~= tok_text_sp());
    }
    extend_bytes(out, w.as_slice());
}

/// The token `TO `.
pub open spec fn tok_to_sp() -> Seq<u8> {
    seq![0x54u8, 0x4fu8, 0x20u8]
}

fn w_to_sp(out: &mut Vec<u8>)
    ensures
        final(out)@ == old(out)@ + tok_to_sp(),
{
    let w: [u8; 3] = [0x54, 0x4f, 0x20];
    proof {
        assert(w@ =~= tok_to_sp());
    }
    extend_bytes(out, w.as_slice());
}

/// The token `UID `.
pub open spec fn tok_uid_search_sp() -> Seq<u8> {
    seq![0x55u8, 0x49u8, 0x44u8, 0x20u8]
}

fn w_uid_search_sp(out: &mut Vec<u8>)
    ensures
        final(out)@ == old(out)@ + tok_uid_search_sp(),
{
    let w: [u8; 4] = [0x55, 0x49, 0x44, 0x20];
    proof {
        assert(w@ =~= tok_uid_search_sp());
    }
    extend_bytes(out, w.as_slice());
}

/// The token `UNANSWERED`.
pub open spec fn tok_unanswered() -> Seq<u8> {
    seq![0x55u8, 0x4eu8, 0x41u8, 0x4eu8, 0x53u8, 0x57u8, 0x45u8, 0x52u8, 0x45u8, 0x44u8]
}

fn w_unanswered(out: &mut Vec<u8>)
    ensures
        final(out)@ == old(out)@ + tok_unanswered(),
{
    let w: [u8; 10] = [0x55, 0x4e, 0x41, 0x4e, 0x53, 0x57, 0x45, 0x52, 0x45, 0x44];
    proof {
        assert(w@ =~= tok_unanswered());
    }
    extend_bytes(out, w.as_slice());
}

/// The token `UNDELETED`.
pub open spec fn tok_undeleted() -> Seq<u8> {
    seq![0x55u8, 0x4eu8, 0x44u8, 0x45u8, 0x4cu8, 0x45u8, 0x54u8, 0x45u8, 0x44u8]
}

fn w_undeleted(out: &mut Vec<u8>)
    ensures
        final(out)@ == old(out)@ + tok_undeleted(),
{
    let w: [u8; 9] = [0x55, 0x4e, 0x44, 0x45, 0x4c, 0x45, 0x54, 0x45, 0x44];
    proof {
        assert(w@ =~= tok_undeleted());
    }
    extend_bytes(out, w.as_slice());
}

/// The token `UNDRAFT`.
pub open spec fn tok_undraft() -> Seq<u8> {
    seq![0x55u8, 0x4eu8, 0x44u8, 0x52u8, 0x41u8, 0x46u8, 0x54u8]
}

fn w_undraft(out: &mut Vec<u8>)
    ensures
        final(out)@ == old(out)@ + tok_undraft(),
{
    let w: [u8; 7] = [0x55, 0x4e, 0x44, 0x52, 0x41, 0x46, 0x54];
    proof {
        assert(w@ =~= tok_undraft());
    }
    extend_bytes(out, w.as_slice());
}

/// The token `UNFLAGGED`.
pub open spec fn tok_unflagged() -> Seq<u8> {
    seq![0x55u8, 0x4eu8, 0x46u8, 0x4cu8, 0x41u8, 0x47u8, 0x47u8, 0x45u8, 0x44u8]
}

fn w_unflagged(out: &mut Vec<u8>)
    ensures
        final(out)@ == old(out)@ + tok_unflagged(),
{
    let w: [u8; 9] = [0x55, 0x4e, 0x46, 0x4c, 0x41, 0x47, 0x47, 0x45, 0x44];
    proof {
        assert(w@ =~= tok_unflagged());
    }
    extend_bytes(out, w.as_slice());
}

/// The token `UNKEYWORD `.
pub open spec fn tok_unkeyword_sp() -> Seq<u8> {
    seq![0x55u8, 0x4eu8, 0x4bu8, 0x45u8, 0x59u8, 0x57u8, 0x4fu8, 0x52u8, 0x44u8, 0x20u8]
}

fn w_unkeyword_sp(out: &mut Vec<u8>)
    ensures
        final(out)@ == old(out)@ + tok_unkeyword_sp(),
{
    let w: [u8; 10] = [0x55, 0x4e, 0x4b, 0x45, 0x59, 0x57, 0x4f, 0x52, 0x44, 0x20];
    proof {
        assert(w@ =~= tok_unkeyword_sp());
    }
    extend_bytes(out, w.as_slice());
}

/// The token `UNSEEN`.
pub open spec fn tok_unseen() -> Seq<u8> {
    seq![0x55u8, 0x4eu8, 0x53u8, 0x45u8, 0x45u8, 0x4eu8]
}

fn w_unseen(out: &mut Vec<u8>)
    ensures
        final(out)@ == old(out)@ + tok_unseen(),
{
    let w: [u8; 6] = [0x55, 0x4e, 0x53, 0x45, 0x45, 0x4e];
    proof {
        assert(w@ =~= tok_unseen());
    }
    extend_bytes(out, w.as_slice());
}

/// The three-letter month name; months are numbered 1 to 12.
pub open spec fn month_name(m: int) -> Seq<u8> {
    if m == 1 {
        seq![0x4au8, 0x61u8, 0x6eu8]
    } else if m == 2 {
        seq![0x46u8, 0x65u8, 0x62u8]
    } else if m == 3 {
        seq![0x4du8, 0x61u8, 0x72u8]
    } else if m == 4 {
        seq![0x41u8, 0x70u8, 0x72u8]
    } else if m == 5 {
        seq![0x4du8, 0x61u8, 0x79u8]
    } else if m == 6 {
        seq![0x4au8, 0x75u8, 0x6eu8]
    } else if m == 7 {
        seq![0x4au8, 0x75u8, 0x6cu8]
    } else if m == 8 {
        seq![0x41u8, 0x75u8, 0x67u8]
    } else if m == 9 {
        seq![0x53u8, 0x65u8, 0x70u8]
    } else if m == 10 {
        seq![0x4fu8, 0x63u8, 0x74u8]
    } else if m == 11 {
        seq![0x4eu8, 0x6fu8, 0x76u8]
    } else if m == 12 {
        seq![0x44u8, 0x65u8, 0x63u8]
    } else {
        Seq::empty()
    }
}

fn write_month(m: u8, out: &mut Vec<u8>)
    ensures
        final(out)@ == old(out)@ + month_name(m as int),
{
    if m == 1 {
        let w: [u8; 3] = [0x4a, 0x61, 0x6e];
        proof {
            assert(w@ =~= month_name(m as int));
        }
        extend_bytes(out, w.as_slice());
    } else if m == 2 {
        let w: [u8; 3] = [0x46, 0x65, 0x62];
        proof {
            assert(w@ =~= month_name(m as int));
        }
        extend_bytes(out, w.as_slice());
    } else if m == 3 {
        let w: [u8; 3] = [0x4d, 0x61, 0x72];
        proof {
            assert(w@ =~= month_name(m as int));
        }
        extend_bytes(out, w.as_slice());
    } else if m == 4 {
        let w: [u8; 3] = [0x41, 0x70, 0x72];
        proof {
            assert(w@ =~= month_name(m as int));
        }
        extend_bytes(out, w.as_slice());
    } else if m == 5 {
        let w: [u8; 3] = [0x4d, 0x61, 0x79];
        proof {
            assert(w@ =~= month_name(m as int));
        }
        extend_bytes(out, w.as_slice());
    } else if m == 6 {
        let w: [u8; 3] = [0x4a, 0x75, 0x6e];
        proof {
            assert(w@ =~= month_name(m as int));
        }
        extend_bytes(out, w.as_slice());
    } else if m == 7 {
        let w: [u8; 3] = [0x4a, 0x75, 0x6c];
        proof {
            assert(w@ =~= month_name(m as int));
        }
        extend_bytes(out, w.as_slice());
    } else if m == 8 {
        let w: [u8; 3] = [0x41, 0x75, 0x67];
        proof {
            assert(w@ =~= month_name(m as int));
        }
        extend_bytes(out, w.as_slice());
    } else if m == 9 {
        let w: [u8; 3] = [0x53, 0x65, 0x70];
        proof {
            assert(w@ =~= month_name(m as int));
        }
        extend_bytes(out, w.as_slice());
    } else if m == 10 {
        let w: [u8; 3] = [0x4f, 0x63, 0x74];
        proof {
            assert(w@ =~= month_name(m as int));
        }
        extend_bytes(out, w.as_slice());
    } else if m == 11 {
        let w: [u8; 3] = [0x4e, 0x6f, 0x76];
        proof {
            assert(w@ =~= month_name(m as int));
        }
        extend_bytes(out, w.as_slice());
    } else if m == 12 {
        let w: [u8; 3] = [0x44, 0x65, 0x63];
        proof {
            assert(w@ =~= month_name(m as int));
        }
        extend_bytes(out, w.as_slice());
    } else {
        assert(final(out)@ =~= old(out)@ + month_name(m as int));
    }
}

// --------------------------------------------------------------------------
// Flags
// --------------------------------------------------------------------------

/// A message flag: one of the system flags, a keyword, or an extension
/// flag.
#[derive(Debug, Clone, PartialEq, Eq)]
pub enum Flag {
    Answered,
    Flagged,
    Deleted,
    Seen,
    Draft,
    /// `\Recent` is set by the server; clients cannot store it, but it can
    /// appear in flag lists.
    Recent,
    /// A keyword: a bare atom.
    Keyword(Atom),
    /// An extension flag: a backslash followed by an atom.
    Extension(Atom),
}

impl Flag {
    pub open spec fn wf(&self) -> bool {
        match self {
            Flag::Keyword(a) => a.wf(),
            Flag::Extension(a) => a.wf(),
            _ => true,
        }
    }

    pub open spec fn encoded(&self) -> Seq<u8> {
        match self {
            Flag::Answered => tok_backslash_answered(),
            Flag::Flagged => tok_backslash_flagged(),
            Flag::Deleted => tok_backslash_deleted(),
            Flag::Seen => tok_backslash_seen(),
            Flag::Draft => tok_backslash_draft(),
            Flag::Recent => tok_backslash_recent(),
            Flag::Keyword(a) => a.encoded(),
            Flag::Extension(a) => tok_backslash() + a.encoded(),
        }
    }

    pub fn encode(&self, out: &mut Vec<u8>)
        ensures
            final(out)@ == old(out)@ + self.encoded(),
    {
        match self {
            Flag::Answered => w_backslash_answered(out),
            Flag::Flagged => w_backslash_flagged(out),
            Flag::Deleted => w_backslash_deleted(out),
            Flag::Seen => w_backslash_seen(out),
            Flag::Draft => w_backslash_draft(out),
            Flag::Recent => w_backslash_recent(out),
            Flag::Keyword(a) => a.encode(out),
            Flag::Extension(a) => {
                w_backslash(out);
                a.encode(out);
                assert(final(out)@ =~= old(out)@ + self.encoded());
            },
        }
    }
}

/// A parenthesized, space-separated flag list; it may be empty.
pub open spec fn encoded_flag_list(l: Seq<Flag>) -> Seq<u8> {
    seq![0x28u8] + joined(l.map_values(|f: Flag| f.encoded()), seq![0x20u8]) + seq![0x29u8]
}

pub fn encode_flag_list(l: &Vec<Flag>, out: &mut Vec<u8>)
    ensures
        final(out)@ == old(out)@ + encoded_flag_list(l@),
{
    let ghost parts = l@.map_values(|f: Flag| f.encoded());
    out.push(0x28);
    let mut i: usize = 0;
    while i < l.len()
        invariant
            0 <= i <= l@.len(),
            parts == l@.map_values(|f: Flag| f.encoded()),
            out@ == old(out)@ + seq![0x28u8] + joined(parts.subrange(0, i as int), seq![0x20u8]),
        decreases l@.len() - i,
    {
        if i > 0 {
            out.push(0x20);
        }
        l[i].encode(out);
        proof {
            let pre = parts.subrange(0, i as int);
            assert(parts.subrange(0, i + 1) =~= pre.push(parts[i as int]));
            lemma_joined_push(pre, parts[i as int], seq![0x20u8]);
            assert(out@ =~= old(out)@ + seq![0x28u8] + joined(
                parts.subrange(0, i + 1),
                seq![0x20u8],
            ));
        }
        i += 1;
    }
    out.push(0x29);
    proof {
        assert(parts.subrange(0, parts.len() as int) =~= parts);
        assert(final(out)@ =~= old(out)@ + encoded_flag_list(l@));
    }
}

// --------------------------------------------------------------------------
// Mailboxes
// --------------------------------------------------------------------------

/// A mailbox name: the case-insensitive reserved name `INBOX`, or any
/// other astring.
#[derive(Debug, Clone, PartialEq, Eq)]
pub enum Mailbox {
    Inbox,
    Other(AString),
}

impl Mailbox {
    /// `Other` never holds a spelling of `INBOX`: such input becomes
    /// [`Mailbox::Inbox`] at construction.
    pub open spec fn wf(&self) -> bool {
        match self {
            Mailbox::Inbox => true,
            Mailbox::Other(a) => a.wf() && upper_seq(a@) != tok_inbox(),
        }
    }

    /// Classifies an astring: any case-insensitive spelling of `INBOX`
    /// means the reserved mailbox.
    pub fn from_astring(a: AString) -> (r: Mailbox)
        ensures
            upper_seq(a@) == tok_inbox() ==> r == Mailbox::Inbox,
            upper_seq(a@) != tok_inbox() ==> r == Mailbox::Other(a),
            a.wf() ==> r.wf(),
    {
        let w: [u8; 5] = [0x49, 0x4e, 0x42, 0x4f, 0x58];
        proof {
            assert(w@ =~= tok_inbox());
        }
        if crate::primitive::eq_ignore_case(a.as_bytes().as_slice(), w.as_slice()) {
            Mailbox::Inbox
        } else {
            Mailbox::Other(a)
        }
    }

    pub open spec fn encoded(&self) -> Seq<u8> {
        match self {
            Mailbox::Inbox => tok_inbox(),
            Mailbox::Other(a) => a.encoded(),
        }
    }

    pub fn encode(&self, out: &mut Vec<u8>)
        ensures
            final(out)@ == old(out)@ + self.encoded(),
    {
        match self {
            Mailbox::Inbox => w_inbox(out),
            Mailbox::Other(a) => a.encode(out),
        }
    }
}

// --------------------------------------------------------------------------
// Dates
// --------------------------------------------------------------------------

/// A calendar date as plain numbers, for the date-valued search keys.
#[derive(Debug, Clone, Copy, PartialEq, Eq, Structural)]
pub struct Date {
    pub year: u16,
    pub month: u8,
    pub day: u8,
}

/// Whether a year is a leap year in the Gregorian calendar.
pub open spec fn is_leap_year(y: int) -> bool {
    (y % 4 == 0 && y % 100 != 0) || y % 400 == 0
}

/// The number of days in a month of a year.
pub open spec fn days_in_month(y: int, m: int) -> int {
    if m == 2 {
        if is_leap_year(y) {
            29
        } else {
            28
        }
    } else if m == 4 || m == 6 || m == 9 || m == 11 {
        30
    } else {
        31
    }
}

/// The year as exactly four decimal digits.
pub open spec fn year_digits(y: int) -> Seq<u8> {
    seq![
        (0x30 + (y / 1000) % 10) as u8, (0x30 + (y / 100) % 10) as u8, (0x30 + (y / 10) % 10) as u8,
        (0x30 + y % 10) as u8,
    ]
}

impl Date {
    /// A real calendar date: the day exists in that month of that year.
    pub open spec fn is_valid(year: u16, month: u8, day: u8) -> bool {
        1 <= month <= 12 && 1 <= day <= days_in_month(year as int, month as int) && year <= 9999
    }

    pub open spec fn wf(&self) -> bool {
        Self::is_valid(self.year, self.month, self.day)
    }

    /// Rejects out-of-range components.
    pub fn new(year: u16, month: u8, day: u8) -> (r: Result<Date, ValidationError>)
        ensures
            r is Ok <==> Self::is_valid(year, month, day),
            r matches Ok(d) ==> d == (Date { year, month, day }),
            r is Err ==> r == Err::<Date, ValidationError>(ValidationError::OutOfRange),
    {
        if month < 1 || month > 12 || year > 9999 {
            return Err(ValidationError::OutOfRange);
        }
        let leap = (year % 4 == 0 && year % 100 != 0) || year % 400 == 0;
        let limit: u8 = if month == 2 {
            if leap {
                29
            } else {
                28
            }
        } else if month == 4 || month == 6 || month == 9 || month == 11 {
            30
        } else {
            31
        };
        if 1 <= day && day <= limit {
            Ok(Date { year, month, day })
        } else {
            Err(ValidationError::OutOfRange)
        }
    }

    /// The wire form: day, month name and four-digit year, dash-separated.
    pub open spec fn encoded(&self) -> Seq<u8> {
        dec_digits(self.day as nat) + seq![0x2du8] + month_name(self.month as int) + seq![0x2du8]
            + year_digits(self.year as int)
    }

    pub fn encode(&self, out: &mut Vec<u8>)
        ensures
            final(out)@ == old(out)@ + self.encoded(),
    {
        encode_number(self.day as u32, out);
        out.push(0x2d);
        write_month(self.month, out);
        out.push(0x2d);
        let y = self.year;
        out.push((0x30 + ((y / 1000) % 10) as u8) as u8);
        out.push((0x30 + ((y / 100) % 10) as u8) as u8);
        out.push((0x30 + ((y / 10) % 10) as u8) as u8);
        out.push((0x30 + (y % 10) as u8) as u8);
        assert(final(out)@ =~= old(out)@ + self.encoded());
    }
}

// --------------------------------------------------------------------------
// Fetch attributes
// --------------------------------------------------------------------------

/// A dot-separated list of non-zero part numbers addressing a MIME part.
#[derive(Debug, Clone, PartialEq, Eq)]
pub struct Part(pub NonEmptyVec<u32>);

impl Part {
    pub open spec fn wf(&self) -> bool {
        self.0@.len() > 0 && forall|i: int| 0 <= i < self.0@.len() ==> self.0@[i] > 0
    }

    pub open spec fn encoded(&self) -> Seq<u8> {
        joined(self.0@.map_values(|n: u32| dec_digits(n as nat)), seq![0x2eu8])
    }

    pub fn encode(&self, out: &mut Vec<u8>)
        ensures
            final(out)@ == old(out)@ + self.encoded(),
    {
        let l = self.0.as_vec();
        let ghost parts = self.0@.map_values(|n: u32| dec_digits(n as nat));
        let mut i: usize = 0;
        while i < l.len()
            invariant
                0 <= i <= l@.len(),
                l@ == self.0@,
                parts == self.0@.map_values(|n: u32| dec_digits(n as nat)),
                out@ == old(out)@ + joined(parts.subrange(0, i as int), seq![0x2eu8]),
            decreases l@.len() - i,
        {
            if i > 0 {
                out.push(0x2e);
            }
            encode_number(l[i], out);
            proof {
                let pre = parts.subrange(0, i as int);
                assert(parts.subrange(0, i + 1) =~= pre.push(parts[i as int]));
                lemma_joined_push(pre, parts[i as int], seq![0x2eu8]);
                assert(out@ =~= old(out)@ + joined(parts.subrange(0, i + 1), seq![0x2eu8]));
            }
            i += 1;
        }
        proof {
            assert(parts.subrange(0, parts.len() as int) =~= parts);
        }
    }
}

/// The part number prefix of a section, with its trailing dot.
pub open spec fn encoded_part_dot(p: Option<Part>) -> Seq<u8> {
    match p {
        None => Seq::empty(),
        Some(part) => part.encoded() + seq![0x2eu8],
    }
}

pub fn encode_part_dot(p: &Option<Part>, out: &mut Vec<u8>)
    ensures
        final(out)@ == old(out)@ + encoded_part_dot(*p),
{
    match p {
        None => {
            assert(final(out)@ =~= old(out)@ + encoded_part_dot(*p));
        },
        Some(part) => {
            part.encode(out);
            out.push(0x2e);
            assert(final(out)@ =~= old(out)@ + encoded_part_dot(*p));
        },
    }
}

/// A parenthesized, space-separated header-field name list.
pub open spec fn encoded_header_list(l: Seq<AString>) -> Seq<u8> {
    seq![0x28u8] + joined(l.map_values(|a: AString| a.encoded()), seq![0x20u8]) + seq![0x29u8]
}

pub fn encode_header_list(l: &NonEmptyVec<AString>, out: &mut Vec<u8>)
    ensures
        final(out)@ == old(out)@ + encoded_header_list(l@),
{
    let v = l.as_vec();
    let ghost parts = l@.map_values(|a: AString| a.encoded());
    out.push(0x28);
    let mut i: usize = 0;
    while i < v.len()
        invariant
            0 <= i <= v@.len(),
            v@ == l@,
            parts == l@.map_values(|a: AString| a.encoded()),
            out@ == old(out)@ + seq![0x28u8] + joined(parts.subrange(0, i as int), seq![0x20u8]),
        decreases v@.len() - i,
    {
        if i > 0 {
            out.push(0x20);
        }
        v[i].encode(out);
        proof {
            let pre = parts.subrange(0, i as int);
            assert(parts.subrange(0, i + 1) =~= pre.push(parts[i as int]));
            lemma_joined_push(pre, parts[i as int], seq![0x20u8]);
            assert(out@ =~= old(out)@ + seq![0x28u8] + joined(
                parts.subrange(0, i + 1),
                seq![0x20u8],
            ));
        }
        i += 1;
    }
    out.push(0x29);
    proof {
        assert(parts.subrange(0, parts.len() as int) =~= parts);
        assert(final(out)@ =~= old(out)@ + encoded_header_list(l@));
    }
}

/// A section of a message addressed by a BODY fetch attribute.
#[derive(Debug, Clone, PartialEq, Eq)]
pub enum Section {
    /// A MIME part.
    Part(Part),
    /// The message header, optionally of a nested part.
    Header(Option<Part>),
    /// Selected header fields.
    HeaderFields(Option<Part>, NonEmptyVec<AString>),
    /// All header fields but the selected ones.
    HeaderFieldsNot(Option<Part>, NonEmptyVec<AString>),
    /// The message text, optionally of a nested part.
    Text(Option<Part>),
    /// The MIME header of a part.
    Mime(Part),
}

impl Section {
    pub open spec fn wf(&self) -> bool {
        match self {
            Section::Part(p) => p.wf(),
            Section::Header(p) => match p {
                Some(part) => part.wf(),
                None => true,
            },
            Section::HeaderFields(p, fs) => (match p {
                Some(part) => part.wf(),
                None => true,
            }) && fs@.len() > 0 && forall|i: int| 0 <= i < fs@.len() ==> (#[trigger] fs@[i]).wf(),
            Section::HeaderFieldsNot(p, fs) => (match p {
                Some(part) => part.wf(),
                None => true,
            }) && fs@.len() > 0 && forall|i: int| 0 <= i < fs@.len() ==> (#[trigger] fs@[i]).wf(),
            Section::Text(p) => match p {
                Some(part) => part.wf(),
                None => true,
            },
            Section::Mime(p) => p.wf(),
        }
    }

    pub open spec fn encoded(&self) -> Seq<u8> {
        match self {
            Section::Part(p) => p.encoded(),
            Section::Header(p) => encoded_part_dot(*p) + tok_header(),
            Section::HeaderFields(p, fs) => encoded_part_dot(*p) + tok_header_fields_sp()
                + encoded_header_list(fs@),
            Section::HeaderFieldsNot(p, fs) => encoded_part_dot(*p) + tok_header_fields_not_sp()
                + encoded_header_list(fs@),
            Section::Text(p) => encoded_part_dot(*p) + tok_text(),
            Section::Mime(p) => p.encoded() + seq![0x2eu8] + tok_mime(),
        }
    }

    pub fn encode(&self, out: &mut Vec<u8>)
        ensures
            final(out)@ == old(out)@ + self.encoded(),
    {
        match self {
            Section::Part(p) => p.encode(out),
            Section::Header(p) => {
                encode_part_dot(p, out);
                w_header(out);
                assert(final(out)@ =~= old(out)@ + self.encoded());
            },
            Section::HeaderFields(p, fs) => {
                encode_part_dot(p, out);
                w_header_fields_sp(out);
                encode_header_list(fs, out);
                assert(final(out)@ =~= old(out)@ + self.encoded());
            },
            Section::HeaderFieldsNot(p, fs) => {
                encode_part_dot(p, out);
                w_header_fields_not_sp(out);
                encode_header_list(fs, out);
                assert(final(out)@ =~= old(out)@ + self.encoded());
            },
            Section::Text(p) => {
                encode_part_dot(p, out);
                w_text(out);
                assert(final(out)@ =~= old(out)@ + self.encoded());
            },
            Section::Mime(p) => {
                p.encode(out);
                out.push(0x2e);
                w_mime(out);
                assert(final(out)@ =~= old(out)@ + self.encoded());
            },
        }
    }
}

/// One fetch attribute.
#[derive(Debug, Clone, PartialEq, Eq)]
pub enum FetchAttribute {
    /// `BODY` without a section: the non-extensible body structure.
    Body,
    /// `BODY[...]` or `BODY.PEEK[...]`, optionally with a partial range.
    BodyExt { section: Option<Section>, partial: Option<(u32, u32)>, peek: bool },
    BodyStructure,
    Envelope,
    Flags,
    InternalDate,
    Rfc822,
    Rfc822Header,
    Rfc822Size,
    Rfc822Text,
    Uid,
}

/// The `<origin.size>` partial-range suffix.
pub open spec fn encoded_partial(p: Option<(u32, u32)>) -> Seq<u8> {
    match p {
        None => Seq::empty(),
        Some((a, b)) => seq![0x3cu8] + dec_digits(a as nat) + seq![0x2eu8] + dec_digits(b as nat)
            + seq![0x3eu8],
    }
}

pub fn encode_partial(p: &Option<(u32, u32)>, out: &mut Vec<u8>)
    ensures
        final(out)@ == old(out)@ + encoded_partial(*p),
{
    match p {
        None => {
            assert(final(out)@ =~= old(out)@ + encoded_partial(*p));
        },
        Some((a, b)) => {
            out.push(0x3c);
            encode_number(*a, out);
            out.push(0x2e);
            encode_number(*b, out);
            out.push(0x3e);
            assert(final(out)@ =~= old(out)@ + encoded_partial(*p));
        },
    }
}

impl FetchAttribute {
    pub open spec fn wf(&self) -> bool {
        match self {
            FetchAttribute::BodyExt { section, partial, peek } => match section {
                Some(s) => s.wf(),
                None => true,
            },
            _ => true,
        }
    }

    pub open spec fn encoded(&self) -> Seq<u8> {
        match self {
            FetchAttribute::Body => tok_body(),
            FetchAttribute::BodyExt { section, partial, peek } => (if *peek {
                tok_body_peek()
            } else {
                tok_body()
            }) + seq![0x5bu8] + (match section {
                Some(s) => s.encoded(),
                None => Seq::empty(),
            }) + seq![0x5du8] + encoded_partial(*partial),
            FetchAttribute::BodyStructure => tok_bodystructure(),
            FetchAttribute::Envelope => tok_envelope_att(),
            FetchAttribute::Flags => tok_flags_att(),
            FetchAttribute::InternalDate => tok_internaldate(),
            FetchAttribute::Rfc822 => tok_rfc822(),
            FetchAttribute::Rfc822Header => tok_rfc822_header(),
            FetchAttribute::Rfc822Size => tok_rfc822_size(),
            FetchAttribute::Rfc822Text => tok_rfc822_text(),
            FetchAttribute::Uid => tok_uid(),
        }
    }

    pub fn encode(&self, out: &mut Vec<u8>)
        ensures
            final(out)@ == old(out)@ + self.encoded(),
    {
        match self {
            FetchAttribute::Body => w_body(out),
            FetchAttribute::BodyExt { section, partial, peek } => {
                if *peek {
                    w_body_peek(out);
                } else {
                    w_body(out);
                }
                out.push(0x5b);
                match section {
                    Some(s) => s.encode(out),
                    None => {},
                }
                out.push(0x5d);
                encode_partial(partial, out);
                assert(final(out)@ =~= old(out)@ + self.encoded());
            },
            FetchAttribute::BodyStructure => w_bodystructure(out),
            FetchAttribute::Envelope => w_envelope_att(out),
            FetchAttribute::Flags => w_flags_att(out),
            FetchAttribute::InternalDate => w_internaldate(out),
            FetchAttribute::Rfc822 => w_rfc822(out),
            FetchAttribute::Rfc822Header => w_rfc822_header(out),
            FetchAttribute::Rfc822Size => w_rfc822_size(out),
            FetchAttribute::Rfc822Text => w_rfc822_text(out),
            FetchAttribute::Uid => w_uid(out),
        }
    }
}

/// A fetch macro expanding to a fixed attribute set.
#[derive(Debug, Clone, Copy, PartialEq, Eq, Structural)]
pub enum Macro {
    All,
    Fast,
    Full,
}

/// What a FETCH command asks for: a macro, or explicit attributes.
#[derive(Debug, Clone, PartialEq, Eq)]
pub enum MacroOrFetchAttributes {
    Macro(Macro),
    FetchAttributes(Vec<FetchAttribute>),
}

impl MacroOrFetchAttributes {
    pub open spec fn wf(&self) -> bool {
        match self {
            MacroOrFetchAttributes::Macro(m) => true,
            MacroOrFetchAttributes::FetchAttributes(l) => l@.len() > 0 && forall|i: int|
                0 <= i < l@.len() ==> (#[trigger] l@[i]).wf(),
        }
    }

    /// A single attribute stands bare; several are parenthesized.
    pub open spec fn encoded(&self) -> Seq<u8> {
        match self {
            MacroOrFetchAttributes::Macro(Macro::All) => tok_all(),
            MacroOrFetchAttributes::Macro(Macro::Fast) => tok_fast(),
            MacroOrFetchAttributes::Macro(Macro::Full) => tok_full(),
            MacroOrFetchAttributes::FetchAttributes(l) => if l@.len() == 1 {
                l@[0].encoded()
            } else {
                seq![0x28u8] + joined(
                    l@.map_values(|a: FetchAttribute| a.encoded()),
                    seq![0x20u8],
                ) + seq![0x29u8]
            },
        }
    }

    pub fn encode(&self, out: &mut Vec<u8>)
        ensures
            final(out)@ == old(out)@ + self.encoded(),
    {
        match self {
            MacroOrFetchAttributes::Macro(Macro::All) => w_all(out),
            MacroOrFetchAttributes::Macro(Macro::Fast) => w_fast(out),
            MacroOrFetchAttributes::Macro(Macro::Full) => w_full(out),
            MacroOrFetchAttributes::FetchAttributes(l) => {
                if l.len() == 1 {
                    l[0].encode(out);
                    assert(final(out)@ =~= old(out)@ + self.encoded());
                    return ;
                }
                let ghost parts = l@.map_values(|a: FetchAttribute| a.encoded());
                out.push(0x28);
                let mut i: usize = 0;
                while i < l.len()
                    invariant
                        0 <= i <= l@.len(),
                        parts == l@.map_values(|a: FetchAttribute| a.encoded()),
                        out@ == old(out)@ + seq![0x28u8] + joined(
                            parts.subrange(0, i as int),
                            seq![0x20u8],
                        ),
                    decreases l@.len() - i,
                {
                    if i > 0 {
                        out.push(0x20);
                    }
                    l[i].encode(out);
                    proof {
                        let pre = parts.subrange(0, i as int);
                        assert(parts.subrange(0, i + 1) =~= pre.push(parts[i as int]));
                        lemma_joined_push(pre, parts[i as int], seq![0x20u8]);
                        assert(out@ =~= old(out)@ + seq![0x28u8] + joined(
                            parts.subrange(0, i + 1),
                            seq![0x20u8],
                        ));
                    }
                    i += 1;
                }
                out.push(0x29);
                proof {
                    assert(parts.subrange(0, parts.len() as int) =~= parts);
                    assert(final(out)@ =~= old(out)@ + self.encoded());
                }
            },
        }
    }
}

// --------------------------------------------------------------------------
// Search keys
// --------------------------------------------------------------------------

/// The recursive boolean search query: leaf predicates plus `And` (a
/// non-empty conjunction), `Or` (exactly two operands) and `Not` (one).
#[derive(Debug, PartialEq, Eq)]
pub enum SearchKey {
    /// A non-empty conjunction; an empty one is not constructible.
    And(NonEmptyVec<SearchKey>),
    SequenceSet(SequenceSet),
    All,
    Answered,
    Bcc(AString),
    Before(Date),
    Body(AString),
    Cc(AString),
    Deleted,
    Draft,
    Flagged,
    From(AString),
    Header(AString, AString),
    Keyword(Atom),
    Larger(u32),
    New,
    Not(Box<SearchKey>),
    Old,
    On(Date),
    Or(Box<SearchKey>, Box<SearchKey>),
    Recent,
    Seen,
    SentBefore(Date),
    SentOn(Date),
    SentSince(Date),
    Since(Date),
    Smaller(u32),
    Subject(AString),
    Text(AString),
    To(AString),
    Uid(SequenceSet),
    Unanswered,
    Undeleted,
    Undraft,
    Unflagged,
    Unkeyword(Atom),
    Unseen,
}

/// Whether a search key and all its children are well formed.
pub open spec fn search_key_wf(k: SearchKey) -> bool
    decreases k,
    via search_key_wf_decreases
{
    match k {
        SearchKey::And(keys) => keys@.len() > 0 && search_keys_wf(keys@),
        SearchKey::SequenceSet(s) => s.wf(),
        SearchKey::Bcc(a) => a.wf(),
        SearchKey::Before(d) => d.wf(),
        SearchKey::Body(a) => a.wf(),
        SearchKey::Cc(a) => a.wf(),
        SearchKey::From(a) => a.wf(),
        SearchKey::Header(f, v) => f.wf() && v.wf(),
        SearchKey::Keyword(a) => a.wf(),
        SearchKey::Not(k1) => search_key_wf(*k1),
        SearchKey::On(d) => d.wf(),
        SearchKey::Or(k1, k2) => search_key_wf(*k1) && search_key_wf(*k2),
        SearchKey::SentBefore(d) => d.wf(),
        SearchKey::SentOn(d) => d.wf(),
        SearchKey::SentSince(d) => d.wf(),
        SearchKey::Since(d) => d.wf(),
        SearchKey::Subject(a) => a.wf(),
        SearchKey::Text(a) => a.wf(),
        SearchKey::To(a) => a.wf(),
        SearchKey::Uid(s) => s.wf(),
        SearchKey::Unkeyword(a) => a.wf(),
        _ => true,
    }
}

#[via_fn]
proof fn search_key_wf_decreases(k: SearchKey) {
    match k {
        SearchKey::And(keys) => lemma_nev_decreases(keys),
        _ => {},
    }
}

pub open spec fn search_keys_wf(l: Seq<SearchKey>) -> bool
    decreases l,
{
    forall|i: int| 0 <= i < l.len() ==> search_key_wf(#[trigger] l[i])
}

/// A list of well-formed keys is a well-formed key list.
pub proof fn lemma_search_keys_wf(l: Seq<SearchKey>)
    requires
        forall|i: int| 0 <= i < l.len() ==> (#[trigger] l[i]).wf(),
    ensures
        search_keys_wf(l),
{
}

/// The space-separated wire forms of a key list.
pub open spec fn encoded_search_keys(l: Seq<SearchKey>) -> Seq<u8>
    decreases l,
{
    if l.len() == 0 {
        Seq::empty()
    } else if l.len() == 1 {
        encoded_search_key(l[0])
    } else {
        encoded_search_key(l[0]) + seq![0x20u8] + encoded_search_keys(l.drop_first())
    }
}

/// The wire form of one search key; `And` renders as a parenthesized,
/// space-separated list, `Or` takes exactly two operands, `Not` one.
pub open spec fn encoded_search_key(k: SearchKey) -> Seq<u8>
    decreases k,
    via encoded_search_key_decreases
{
    match k {
        SearchKey::And(keys) => seq![0x28u8] + encoded_search_keys(keys@) + seq![0x29u8],
        SearchKey::SequenceSet(s) => s.encoded(),
        SearchKey::All => tok_all(),
        SearchKey::Answered => tok_answered(),
        SearchKey::Bcc(a) => tok_bcc_sp() + a.encoded(),
        SearchKey::Before(d) => tok_before_sp() + d.encoded(),
        SearchKey::Body(a) => tok_body_sp() + a.encoded(),
        SearchKey::Cc(a) => tok_cc_sp() + a.encoded(),
        SearchKey::Deleted => tok_deleted(),
        SearchKey::Draft => tok_draft(),
        SearchKey::Flagged => tok_flagged(),
        SearchKey::From(a) => tok_from_sp() + a.encoded(),
        SearchKey::Header(f, v) => tok_header_sp() + f.encoded() + seq![0x20u8] + v.encoded(),
        SearchKey::Keyword(a) => tok_keyword_sp() + a.encoded(),
        SearchKey::Larger(n) => tok_larger_sp() + dec_digits(n as nat),
        SearchKey::New => tok_new(),
        SearchKey::Not(k1) => tok_not_sp() + encoded_search_key(*k1),
        SearchKey::Old => tok_old(),
        SearchKey::On(d) => tok_on_sp() + d.encoded(),
        SearchKey::Or(k1, k2) => tok_or_sp() + encoded_search_key(*k1) + seq![0x20u8]
            + encoded_search_key(*k2),
        SearchKey::Recent => tok_recent(),
        SearchKey::Seen => tok_seen(),
        SearchKey::SentBefore(d) => tok_sentbefore_sp() + d.encoded(),
        SearchKey::SentOn(d) => tok_senton_sp() + d.encoded(),
        SearchKey::SentSince(d) => tok_sentsince_sp() + d.encoded(),
        SearchKey::Since(d) => tok_since_sp() + d.encoded(),
        SearchKey::Smaller(n) => tok_smaller_sp() + dec_digits(n as nat),
        SearchKey::Subject(a) => tok_subject_sp() + a.encoded(),
        SearchKey::Text(a) => tok_text_sp() + a.encoded(),
        SearchKey::To(a) => tok_to_sp() + a.encoded(),
        SearchKey::Uid(s) => tok_uid_search_sp() + s.encoded(),
        SearchKey::Unanswered => tok_unanswered(),
        SearchKey::Undeleted => tok_undeleted(),
        SearchKey::Undraft => tok_undraft(),
        SearchKey::Unflagged => tok_unflagged(),
        SearchKey::Unkeyword(a) => tok_unkeyword_sp() + a.encoded(),
        SearchKey::Unseen => tok_unseen(),
    }
}

#[via_fn]
proof fn encoded_search_key_decreases(k: SearchKey) {
    match k {
        SearchKey::And(keys) => lemma_nev_decreases(keys),
        _ => {},
    }
}

/// Appending one more key appends one separator and its wire form.
pub proof fn lemma_encoded_search_keys_push(l: Seq<SearchKey>, x: SearchKey)
    ensures
        l.len() == 0 ==> encoded_search_keys(l.push(x)) == encoded_search_key(x),
        l.len() > 0 ==> encoded_search_keys(l.push(x)) == encoded_search_keys(l) + seq![0x20u8]
            + encoded_search_key(x),
    decreases l,
{
    let w = l.push(x);
    if l.len() == 0 {
        assert(w[0] == x);
    } else if l.len() == 1 {
        assert(w.drop_first() =~= seq![x]);
        assert(encoded_search_keys(seq![x]) == encoded_search_key(x));
    } else {
        lemma_encoded_search_keys_push(l.drop_first(), x);
        assert(w.drop_first() =~= l.drop_first().push(x));
        assert(encoded_search_key(l[0]) + seq![0x20u8] + (encoded_search_keys(l.drop_first())
            + seq![0x20u8] + encoded_search_key(x)) =~= (encoded_search_key(l[0]) + seq![0x20u8]
            + encoded_search_keys(l.drop_first())) + seq![0x20u8] + encoded_search_key(x));
    }
}

impl SearchKey {
    pub open spec fn wf(&self) -> bool {
        search_key_wf(*self)
    }

    pub open spec fn encoded(&self) -> Seq<u8> {
        encoded_search_key(*self)
    }

    pub fn encode(&self, out: &mut Vec<u8>)
        ensures
            final(out)@ == old(out)@ + self.encoded(),
        decreases self,
    {
        match self {
            SearchKey::And(keys) => {
                proof {
                    lemma_nev_decreases(*keys);
                }
                let v = keys.as_vec();
                out.push(0x28);
                let mut i: usize = 0;
                while i < v.len()
                    invariant
                        0 <= i <= v@.len(),
                        v@ == keys@,
                        (decreases_to!(*self => keys@)),
                        out@ == old(out)@ + seq![0x28u8] + encoded_search_keys(
                            keys@.subrange(0, i as int),
                        ),
                    decreases v@.len() - i,
                {
                    if i > 0 {
                        out.push(0x20);
                    }
                    proof {
                        vstd::seq::axiom_seq_index_decreases(keys@, i as int);
                        assert(v@[i as int] == keys@[i as int]);
                    }
                    v[i].encode(out);
                    proof {
                        let pre = keys@.subrange(0, i as int);
                        assert(keys@.subrange(0, i + 1) =~= pre.push(keys@[i as int]));
                        lemma_encoded_search_keys_push(pre, keys@[i as int]);
                        assert(out@ =~= old(out)@ + seq![0x28u8] + encoded_search_keys(
                            keys@.subrange(0, i + 1),
                        ));
                    }
                    i += 1;
                }
                out.push(0x29);
                proof {
                    assert(keys@.subrange(0, keys@.len() as int) =~= keys@);
                    assert(final(out)@ =~= old(out)@ + self.encoded());
                }
            },
            SearchKey::SequenceSet(s) => s.encode(out),
            SearchKey::All => w_all(out),
            SearchKey::Answered => w_answered(out),
            SearchKey::Bcc(a) => {
                w_bcc_sp(out);
                a.encode(out);
                assert(final(out)@ =~= old(out)@ + self.encoded());
            },
            SearchKey::Before(d) => {
                w_before_sp(out);
                d.encode(out);
                assert(final(out)@ =~= old(out)@ + self.encoded());
            },
            SearchKey::Body(a) => {
                w_body_sp(out);
                a.encode(out);
                assert(final(out)@ =~= old(out)@ + self.encoded());
            },
            SearchKey::Cc(a) => {
                w_cc_sp(out);
                a.encode(out);
                assert(final(out)@ =~= old(out)@ + self.encoded());
            },
            SearchKey::Deleted => w_deleted(out),
            SearchKey::Draft => w_draft(out),
            SearchKey::Flagged => w_flagged(out),
            SearchKey::From(a) => {
                w_from_sp(out);
                a.encode(out);
                assert(final(out)@ =~= old(out)@ + self.encoded());
            },
            SearchKey::Header(f, v) => {
                w_header_sp(out);
                f.encode(out);
                out.push(0x20);
                v.encode(out);
                assert(final(out)@ =~= old(out)@ + self.encoded());
            },
            SearchKey::Keyword(a) => {
                w_keyword_sp(out);
                a.encode(out);
                assert(final(out)@ =~= old(out)@ + self.encoded());
            },
            SearchKey::Larger(n) => {
                w_larger_sp(out);
                encode_number(*n, out);
                assert(final(out)@ =~= old(out)@ + self.encoded());
            },
            SearchKey::New => w_new(out),
            SearchKey::Not(k1) => {
                w_not_sp(out);
                k1.encode(out);
                assert(final(out)@ =~= old(out)@ + self.encoded());
            },
            SearchKey::Old => w_old(out),
            SearchKey::On(d) => {
                w_on_sp(out);
                d.encode(out);
                assert(final(out)@ =~= old(out)@ + self.encoded());
            },
            SearchKey::Or(k1, k2) => {
                w_or_sp(out);
                k1.encode(out);
                out.push(0x20);
                k2.encode(out);
                assert(final(out)@ =~= old(out)@ + self.encoded());
            },
            SearchKey::Recent => w_recent(out),
            SearchKey::Seen => w_seen(out),
            SearchKey::SentBefore(d) => {
                w_sentbefore_sp(out);
                d.encode(out);
                assert(final(out)@ =~= old(out)@ + self.encoded());
            },
            SearchKey::SentOn(d) => {
                w_senton_sp(out);
                d.encode(out);
                assert(final(out)@ =~= old(out)@ + self.encoded());
            },
            SearchKey::SentSince(d) => {
                w_sentsince_sp(out);
                d.encode(out);
                assert(final(out)@ =~= old(out)@ + self.encoded());
            },
            SearchKey::Since(d) => {
                w_since_sp(out);
                d.encode(out);
                assert(final(out)@ =~= old(out)@ + self.encoded());
            },
            SearchKey::Smaller(n) => {
                w_smaller_sp(out);
                encode_number(*n, out);
                assert(final(out)@ =~= old(out)@ + self.encoded());
            },
            SearchKey::Subject(a) => {
                w_subject_sp(out);
                a.encode(out);
                assert(final(out)@ =~= old(out)@ + self.encoded());
            },
            SearchKey::Text(a) => {
                w_text_sp(out);
                a.encode(out);
                assert(final(out)@ =~= old(out)@ + self.encoded());
            },
            SearchKey::To(a) => {
                w_to_sp(out);
                a.encode(out);
                assert(final(out)@ =~= old(out)@ + self.encoded());
            },
            SearchKey::Uid(s) => {
                w_uid_search_sp(out);
                s.encode(out);
                assert(final(out)@ =~= old(out)@ + self.encoded());
            },
            SearchKey::Unanswered => w_unanswered(out),
            SearchKey::Undeleted => w_undeleted(out),
            SearchKey::Undraft => w_undraft(out),
            SearchKey::Unflagged => w_unflagged(out),
            SearchKey::Unkeyword(a) => {
                w_unkeyword_sp(out);
                a.encode(out);
                assert(final(out)@ =~= old(out)@ + self.encoded());
            },
            SearchKey::Unseen => w_unseen(out),
        }
    }
}

/// Search criteria at the top level of a SEARCH command: a conjunction is
/// written space-separated without the enclosing parentheses.
pub open spec fn encoded_criteria(k: SearchKey) -> Seq<u8> {
    match k {
        SearchKey::And(keys) => encoded_search_keys(keys@),
        _ => encoded_search_key(k),
    }
}

pub fn encode_criteria(k: &SearchKey, out: &mut Vec<u8>)
    ensures
        final(out)@ == old(out)@ + encoded_criteria(*k),
{
    match k {
        SearchKey::And(keys) => {
            proof {
                lemma_nev_decreases(*keys);
            }
            let v = keys.as_vec();
            let mut i: usize = 0;
            while i < v.len()
                invariant
                    0 <= i <= v@.len(),
                    v@ == keys@,
                    out@ == old(out)@ + encoded_search_keys(keys@.subrange(0, i as int)),
                decreases v@.len() - i,
            {
                if i > 0 {
                    out.push(0x20);
                }
                v[i].encode(out);
                proof {
                    let pre = keys@.subrange(0, i as int);
                    assert(keys@.subrange(0, i + 1) =~= pre.push(keys@[i as int]));
                    lemma_encoded_search_keys_push(pre, keys@[i as int]);
                    assert(out@ =~= old(out)@ + encoded_search_keys(keys@.subrange(0, i + 1)));
                }
                i += 1;
            }
            proof {
                assert(keys@.subrange(0, keys@.len() as int) =~= keys@);
            }
        },
        _ => {
            k.encode(out);
            assert(final(out)@ =~= old(out)@ + encoded_criteria(*k));
        },
    }
}

// --------------------------------------------------------------------------
// Commands
// --------------------------------------------------------------------------

/// How a STORE command changes the flag set.
#[derive(Debug, Clone, Copy, PartialEq, Eq, Structural)]
pub enum StoreType {
    /// Replace the flags.
    Replace,
    /// `+FLAGS`: add the flags.
    Add,
    /// `-FLAGS`: remove the flags.
    Remove,
}

/// Whether the server should answer a STORE with the new flag values.
#[derive(Debug, Clone, Copy, PartialEq, Eq, Structural)]
pub enum StoreResponse {
    Answer,
    /// `.SILENT`: no untagged FETCH response wanted.
    Silent,
}

/// One supported client operation, without its tag.
#[derive(Debug, PartialEq, Eq)]
pub enum CommandBody {
    Capability,
    Noop,
    Logout,
    StartTLS,
    Check,
    Close,
    Expunge,
    Login { username: AString, password: AString },
    Select { mailbox: Mailbox },
    Examine { mailbox: Mailbox },
    Create { mailbox: Mailbox },
    Delete { mailbox: Mailbox },
    Subscribe { mailbox: Mailbox },
    Unsubscribe { mailbox: Mailbox },
    Rename { existing_mailbox_name: Mailbox, new_mailbox_name: Mailbox },
    Search { charset: Option<AString>, criteria: SearchKey, uid: bool },
    Fetch { sequence_set: SequenceSet, attributes: MacroOrFetchAttributes, uid: bool },
    Store {
        sequence_set: SequenceSet,
        kind: StoreType,
        response: StoreResponse,
        flags: Vec<Flag>,
        uid: bool,
    },
    Copy { sequence_set: SequenceSet, mailbox: Mailbox, uid: bool },
}

/// The `UID ` prefix of the UID command variants.
pub open spec fn encoded_uid_prefix(uid: bool) -> Seq<u8> {
    if uid {
        tok_uid_sp()
    } else {
        Seq::empty()
    }
}

impl CommandBody {
    pub open spec fn wf(&self) -> bool {
        match self {
            CommandBody::Login { username, password } => username.wf() && password.wf(),
            CommandBody::Select { mailbox } => mailbox.wf(),
            CommandBody::Examine { mailbox } => mailbox.wf(),
            CommandBody::Create { mailbox } => mailbox.wf(),
            CommandBody::Delete { mailbox } => mailbox.wf(),
            CommandBody::Subscribe { mailbox } => mailbox.wf(),
            CommandBody::Unsubscribe { mailbox } => mailbox.wf(),
            CommandBody::Rename { existing_mailbox_name, new_mailbox_name } =>
                existing_mailbox_name.wf() && new_mailbox_name.wf(),
            CommandBody::Search { charset, criteria, uid } => (match charset {
                Some(c) => c.wf(),
                None => true,
            }) && criteria.wf(),
            CommandBody::Fetch { sequence_set, attributes, uid } => sequence_set.wf()
                && attributes.wf(),
            CommandBody::Store { sequence_set, kind, response, flags, uid } => sequence_set.wf()
                && forall|i: int| 0 <= i < flags@.len() ==> (#[trigger] flags@[i]).wf(),
            CommandBody::Copy { sequence_set, mailbox, uid } => sequence_set.wf() && mailbox.wf(),
            _ => true,
        }
    }

    pub open spec fn encoded(&self) -> Seq<u8> {
        match self {
            CommandBody::Capability => tok_capability(),
            CommandBody::Noop => tok_noop(),
            CommandBody::Logout => tok_logout(),
            CommandBody::StartTLS => tok_starttls(),
            CommandBody::Check => tok_check(),
            CommandBody::Close => tok_close(),
            CommandBody::Expunge => tok_expunge(),
            CommandBody::Login { username, password } => tok_login_sp() + username.encoded()
                + seq![0x20u8] + password.encoded(),
            CommandBody::Select { mailbox } => tok_select_sp() + mailbox.encoded(),
            CommandBody::Examine { mailbox } => tok_examine_sp() + mailbox.encoded(),
            CommandBody::Create { mailbox } => tok_create_sp() + mailbox.encoded(),
            CommandBody::Delete { mailbox } => tok_delete_sp() + mailbox.encoded(),
            CommandBody::Subscribe { mailbox } => tok_subscribe_sp() + mailbox.encoded(),
            CommandBody::Unsubscribe { mailbox } => tok_unsubscribe_sp() + mailbox.encoded(),
            CommandBody::Rename { existing_mailbox_name, new_mailbox_name } => tok_rename_sp()
                + existing_mailbox_name.encoded() + seq![0x20u8] + new_mailbox_name.encoded(),
            CommandBody::Search { charset, criteria, uid } => encoded_uid_prefix(*uid)
                + tok_search() + (match charset {
                Some(c) => tok_charset_sp() + c.encoded(),
                None => Seq::empty(),
            }) + seq![0x20u8] + encoded_criteria(*criteria),
            CommandBody::Fetch { sequence_set, attributes, uid } => encoded_uid_prefix(*uid)
                + tok_fetch_sp() + sequence_set.encoded() + seq![0x20u8] + attributes.encoded(),
            CommandBody::Store { sequence_set, kind, response, flags, uid } => encoded_uid_prefix(
                *uid,
            ) + tok_store_sp() + sequence_set.encoded() + seq![0x20u8] + (match kind {
                StoreType::Replace => tok_flags_kw(),
                StoreType::Add => tok_plus_flags(),
                StoreType::Remove => tok_minus_flags(),
            }) + (if response is Silent {
                tok_silent()
            } else {
                Seq::empty()
            }) + seq![0x20u8] + encoded_flag_list(flags@),
            CommandBody::Copy { sequence_set, mailbox, uid } => encoded_uid_prefix(*uid)
                + tok_copy_sp() + sequence_set.encoded() + seq![0x20u8] + mailbox.encoded(),
        }
    }

    #[verifier::rlimit(100)]
    pub fn encode(&self, out: &mut Vec<u8>)
        ensures
            final(out)@ == old(out)@ + self.encoded(),
    {
        match self {
            CommandBody::Capability => w_capability(out),
            CommandBody::Noop => w_noop(out),
            CommandBody::Logout => w_logout(out),
            CommandBody::StartTLS => w_starttls(out),
            CommandBody::Check => w_check(out),
            CommandBody::Close => w_close(out),
            CommandBody::Expunge => w_expunge(out),
            CommandBody::Login { username, password } => {
                w_login_sp(out);
                username.encode(out);
                out.push(0x20);
                password.encode(out);
                assert(final(out)@ =~= old(out)@ + self.encoded());
            },
            CommandBody::Select { mailbox } => {
                w_select_sp(out);
                mailbox.encode(out);
                assert(final(out)@ =~= old(out)@ + self.encoded());
            },
            CommandBody::Examine { mailbox } => {
                w_examine_sp(out);
                mailbox.encode(out);
                assert(final(out)@ =~= old(out)@ + self.encoded());
            },
            CommandBody::Create { mailbox } => {
                w_create_sp(out);
                mailbox.encode(out);
                assert(final(out)@ =~= old(out)@ + self.encoded());
            },
            CommandBody::Delete { mailbox } => {
                w_delete_sp(out);
                mailbox.encode(out);
                assert(final(out)@ =~= old(out)@ + self.encoded());
            },
            CommandBody::Subscribe { mailbox } => {
                w_subscribe_sp(out);
                mailbox.encode(out);
                assert(final(out)@ =~= old(out)@ + self.encoded());
            },
            CommandBody::Unsubscribe { mailbox } => {
                w_unsubscribe_sp(out);
                mailbox.encode(out);
                assert(final(out)@ =~= old(out)@ + self.encoded());
            },
            CommandBody::Rename { existing_mailbox_name, new_mailbox_name } => {
                w_rename_sp(out);
                existing_mailbox_name.encode(out);
                out.push(0x20);
                new_mailbox_name.encode(out);
                assert(final(out)@ =~= old(out)@ + self.encoded());
            },
            CommandBody::Search { charset, criteria, uid } => {
                if *uid {
                    w_uid_sp(out);
                }
                w_search(out);
                match charset {
                    Some(c) => {
                        w_charset_sp(out);
                        c.encode(out);
                    },
                    None => {},
                }
                out.push(0x20);
                encode_criteria(criteria, out);
                assert(final(out)@ =~= old(out)@ + self.encoded());
            },
            CommandBody::Fetch { sequence_set, attributes, uid } => {
                if *uid {
                    w_uid_sp(out);
                }
                w_fetch_sp(out);
                sequence_set.encode(out);
                out.push(0x20);
                attributes.encode(out);
                assert(final(out)@ =~= old(out)@ + self.encoded());
            },
            CommandBody::Store { sequence_set, kind, response, flags, uid } => {
                if *uid {
                    w_uid_sp(out);
                }
                w_store_sp(out);
                sequence_set.encode(out);
                out.push(0x20);
                match kind {
                    StoreType::Replace => w_flags_kw(out),
                    StoreType::Add => w_plus_flags(out),
                    StoreType::Remove => w_minus_flags(out),
                }
                if matches!(response, StoreResponse::Silent) {
                    w_silent(out);
                }
                out.push(0x20);
                encode_flag_list(flags, out);
                assert(final(out)@ =~= old(out)@ + self.encoded());
            },
            CommandBody::Copy { sequence_set, mailbox, uid } => {
                if *uid {
                    w_uid_sp(out);
                }
                w_copy_sp(out);
                sequence_set.encode(out);
                out.push(0x20);
                mailbox.encode(out);
                assert(final(out)@ =~= old(out)@ + self.encoded());
            },
        }
    }
}

/// A complete client command: its tag and its operation.
#[derive(Debug, PartialEq, Eq)]
pub struct Command {
    pub tag: Tag,
    pub body: CommandBody,
}

impl Command {
    pub open spec fn wf(&self) -> bool {
        self.tag.wf() && self.body.wf()
    }

    pub fn new(tag: Tag, body: CommandBody) -> (r: Command)
        ensures
            r.tag == tag,
            r.body == body,
    {
        Command { tag, body }
    }

    /// The wire form: tag, space, operation, CRLF.
    pub open spec fn encoded(&self) -> Seq<u8> {
        self.tag.encoded() + seq![0x20u8] + self.body.encoded() + seq![0x0du8, 0x0au8]
    }

    pub fn encode(&self, out: &mut Vec<u8>)
        ensures
            final(out)@ == old(out)@ + self.encoded(),
    {
        self.tag.encode(out);
        out.push(0x20);
        self.body.encode(out);
        out.push(0x0d);
        out.push(0x0a);
        assert(final(out)@ =~= old(out)@ + self.encoded());
    }

    /// The wire form as a fresh byte vector.
    pub fn to_bytes(&self) -> (r: Vec<u8>)
        ensures
            r@ == self.encoded(),
    {
        let mut out = Vec::new();
        self.encode(&mut out);
        assert(out@ =~= self.encoded());
        out
    }
}

} // verus!
