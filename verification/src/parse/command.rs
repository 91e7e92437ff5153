//! The parser for client command lines.
//!
//! Parsing has two stages.  The framing stage implements the protocol
//! receiver's discipline: it reads lines, and a line ending in a literal
//! announcement `{n}` promises exactly n octets followed by another line.
//! Only this stage can report that input is incomplete.  The grammar stage
//! then parses the complete framed text into a [`Command`], or rejects it
//! as malformed.

use vstd::prelude::*;
use crate::primitive::{is_atom_char, is_digit, upper_seq, AString, NonEmptyVec};
use crate::parse::{
    span_atom, span_digit, number, expect_byte, dec_val, all_digits, astring, ParseError,
};
use crate::sequence::{SequenceSet, sequence_set};
use crate::command::{
    Command, CommandBody, Date, FetchAttribute, Flag, Macro, MacroOrFetchAttributes, Mailbox, Part,
    Section, SearchKey, StoreResponse, StoreType,
};

verus! {

// --------------------------------------------------------------------------
// Framing
// --------------------------------------------------------------------------

/// The position of the first CRLF at or after `i`, or -1 if there is none.
pub open spec fn find_crlf(s: Seq<u8>, i: int) -> int
    decreases s.len() - i,
    when 0 <= i <= s.len()
{
    if i + 2 <= s.len() {
        if s[i] == 0x0d && s[i + 1] == 0x0a {
            i
        } else {
            find_crlf(s, i + 1)
        }
    } else {
        -1
    }
}

pub proof fn lemma_find_crlf_props(s: Seq<u8>, i: int)
    requires
        0 <= i <= s.len(),
    ensures
        find_crlf(s, i) == -1 || (i <= find_crlf(s, i) && find_crlf(s, i) + 2 <= s.len()),
    decreases s.len() - i,
{
    if i + 2 <= s.len() && !(s[i] == 0x0d && s[i + 1] == 0x0a) {
        lemma_find_crlf_props(s, i + 1);
    }
}

pub proof fn lemma_find_crlf_eq(s: Seq<u8>, i: int, j: int)
    requires
        0 <= i <= j,
        j + 2 <= s.len(),
        forall|k: int| i <= k < j ==> !((#[trigger] s[k]) == 0x0d && s[k + 1] == 0x0a),
        s[j] == 0x0d && s[j + 1] == 0x0a,
    ensures
        find_crlf(s, i) == j,
    decreases j - i,
{
    if i < j {
        lemma_find_crlf_eq(s, i + 1, j);
    }
}

pub proof fn lemma_find_crlf_none(s: Seq<u8>, i: int)
    requires
        0 <= i <= s.len(),
        forall|k: int| i <= k && k + 2 <= s.len() ==> !((#[trigger] s[k]) == 0x0d && s[k + 1] == 0x0a),
    ensures
        find_crlf(s, i) == -1,
    decreases s.len() - i,
{
    if i + 2 <= s.len() {
        lemma_find_crlf_none(s, i + 1);
    }
}

/// Scans for the first CRLF at or after `pos`.
fn scan_crlf(input: &[u8], pos: usize) -> (r: Option<usize>)
    requires
        pos <= input@.len(),
    ensures
        match r {
            Some(j) => find_crlf(input@, pos as int) == j && pos <= j && j + 2 <= input@.len(),
            None => find_crlf(input@, pos as int) == -1,
        },
{
    let n = input.len();
    let mut j = pos;
    loop
        invariant
            pos <= j <= n,
            n == input@.len(),
            n <= usize::MAX,
            forall|k: int| pos <= k < j ==> !((#[trigger] input@[k]) == 0x0d && input@[k + 1] == 0x0a),
        decreases n - j,
    {
        if n - j < 2 {
            proof {
                lemma_find_crlf_none(input@, pos as int);
            }
            return None;
        }
        if input[j] == 0x0d && input[j + 1] == 0x0a {
            proof {
                lemma_find_crlf_eq(input@, pos as int, j as int);
            }
            return Some(j);
        }
        j += 1;
    }
}

/// The start of the maximal run of digits that ends at `j` (exclusive) and
/// does not reach below `lo`.
pub open spec fn rev_digits_start(s: Seq<u8>, j: int, lo: int) -> int
    decreases j - lo,
    when 0 <= lo <= j <= s.len()
{
    if j > lo && is_digit(s[j - 1]) {
        rev_digits_start(s, j - 1, lo)
    } else {
        j
    }
}

pub proof fn lemma_rev_digits_props(s: Seq<u8>, j: int, lo: int)
    requires
        0 <= lo <= j <= s.len(),
    ensures
        lo <= rev_digits_start(s, j, lo) <= j,
        forall|k: int| rev_digits_start(s, j, lo) <= k < j ==> is_digit(s[k]),
        rev_digits_start(s, j, lo) > lo ==> !is_digit(s[rev_digits_start(s, j, lo) - 1]),
    decreases j - lo,
{
    if j > lo && is_digit(s[j - 1]) {
        lemma_rev_digits_props(s, j - 1, lo);
    }
}

fn scan_rev_digits(input: &[u8], j: usize, lo: usize) -> (r: usize)
    requires
        lo <= j <= input@.len(),
    ensures
        r == rev_digits_start(input@, j as int, lo as int),
        lo <= r <= j,
{
    let mut k = j;
    while k > lo && 0x30 <= input[k - 1] && input[k - 1] <= 0x39
        invariant
            lo <= k <= j <= input@.len(),
            rev_digits_start(input@, j as int, lo as int) == rev_digits_start(
                input@,
                k as int,
                lo as int,
            ),
        decreases k,
    {
        k -= 1;
    }
    k
}

/// The literal octet count announced at the end of the line `s[i..e]`, if
/// the line ends with `{n}` or `{n+}` and n fits in 32 bits.
pub open spec fn line_announce(s: Seq<u8>, i: int, e: int) -> Option<int> {
    if i <= e - 1 < s.len() && s[e - 1] == 0x7d {
        let q = if i <= e - 2 && s[e - 2] == 0x2b {
            e - 2
        } else {
            e - 1
        };
        let d = rev_digits_start(s, q, i);
        if d < q && i <= d - 1 && s[d - 1] == 0x7b && dec_val(s.subrange(d, q)) <= u32::MAX {
            Some(dec_val(s.subrange(d, q)))
        } else {
            None
        }
    } else {
        None
    }
}

fn scan_announce(input: &[u8], pos: usize, e: usize) -> (r: Option<u32>)
    requires
        pos <= e <= input@.len(),
    ensures
        match r {
            Some(n) => line_announce(input@, pos as int, e as int) == Some(n as int),
            None => line_announce(input@, pos as int, e as int) is None,
        },
{
    if e == pos || !expect_byte(input, e - 1, 0x7d) {
        return None;
    }
    let q = if e - pos >= 2 && input[e - 2] == 0x2b {
        e - 2
    } else {
        e - 1
    };
    let d = scan_rev_digits(input, q, pos);
    proof {
        lemma_rev_digits_props(input@, q as int, pos as int);
    }
    if d >= q || d == pos || input[d - 1] != 0x7b {
        return None;
    }
    let ghost digs = input@.subrange(d as int, q as int);
    proof {
        assert(all_digits(digs));
        crate::parse::lemma_span_eq(input@, d as int, q as int, |b: u8| is_digit(b));
    }
    match number(input, d) {
        Some((n, j)) => {
            proof {
                assert(j == q);
                crate::parse::lemma_dec_val_bounds(digs);
            }
            Some(n)
        },
        None => {
            proof {
                crate::parse::lemma_dec_val_bounds(digs);
            }
            None
        },
    }
}

/// The outcome of framing: either the whole command ends at a position, or
/// at least this many more bytes are needed.
pub ghost enum Framing {
    Incomplete(int),
    Complete(int),
}

/// Walks lines from `i`: a line that announces a literal must be followed
/// by that many octets and another line; a line without an announcement
/// ends the command.
pub open spec fn spec_frame(s: Seq<u8>, i: int) -> Framing
    decreases s.len() - i,
    when 0 <= i <= s.len()
    via spec_frame_decreases
{
    let e = find_crlf(s, i);
    if e < 0 {
        Framing::Incomplete(
            if s.len() > i && s[s.len() - 1] == 0x0d {
                1
            } else {
                2
            },
        )
    } else {
        match line_announce(s, i, e) {
            Some(n) => if e + 2 + n <= s.len() {
                spec_frame(s, e + 2 + n)
            } else {
                Framing::Incomplete(e + 2 + n - s.len())
            },
            None => Framing::Complete(e + 2),
        }
    }
}

#[via_fn]
proof fn spec_frame_decreases(s: Seq<u8>, i: int) {
    lemma_find_crlf_props(s, i);
    let e = find_crlf(s, i);
    if e >= 0 {
        match line_announce(s, i, e) {
            Some(n) => {
                lemma_rev_digits_props(s, if s[e - 2] == 0x2b && i <= e - 2 {
                    e - 2
                } else {
                    e - 1
                }, i);
                assert(n >= 0) by {
                    let q = if i <= e - 2 && s[e - 2] == 0x2b {
                        e - 2
                    } else {
                        e - 1
                    };
                    let d = rev_digits_start(s, q, i);
                    lemma_rev_digits_props(s, q, i);
                    crate::parse::lemma_dec_val_bounds(s.subrange(d, q));
                };
            },
            None => {},
        }
    }
}

/// Runs the framing stage: `Ok(end)` when a complete command stands in
/// `input[pos..end]`, `Err(Incomplete(k))` when at least `k` more bytes are
/// needed.  Framing alone never reports a malformed command.
pub fn frame(input: &[u8], pos: usize) -> (r: Result<usize, ParseError>)
    requires
        pos <= input@.len(),
    ensures
        match r {
            Ok(end) => spec_frame(input@, pos as int) == Framing::Complete(end as int) && pos < end
                <= input@.len(),
            Err(e) => e matches ParseError::Incomplete(k) && spec_frame(input@, pos as int)
                == Framing::Incomplete(k as int) && k >= 1,
        },
{
    let n = input.len();
    let mut cur = pos;
    loop
        invariant
            pos <= cur <= n,
            n == input@.len(),
            n <= usize::MAX,
            spec_frame(input@, pos as int) == spec_frame(input@, cur as int),
        decreases n - cur,
    {
        proof {
            lemma_find_crlf_props(input@, cur as int);
        }
        let e = match scan_crlf(input, cur) {
            Some(e) => e,
            None => {
                let need: usize = if n > cur && input[n - 1] == 0x0d {
                    1
                } else {
                    2
                };
                return Err(ParseError::Incomplete(need));
            },
        };
        match scan_announce(input, cur, e) {
            Some(lit) => {
                let lit_us = lit as usize;
                if lit_us <= n - (e + 2) {
                    cur = e + 2 + lit_us;
                } else {
                    let need = lit_us - (n - (e + 2));
                    return Err(ParseError::Incomplete(need));
                }
            },
            None => {
                return Ok(e + 2);
            },
        }
    }
}

// --------------------------------------------------------------------------
// Grammar
// --------------------------------------------------------------------------
//
// Each grammar rule exists twice: a specification function over `Seq<u8>`
// returning the rule's value at the shape level (strings as their byte
// content, lists as sequences), and an executable parser whose contract
// says it returns exactly the specification's result.


/// The keyword `JAN`.
pub open spec fn pkw_jan() -> Seq<u8> {
    seq![0x4au8, 0x41u8, 0x4eu8]
}

/// The keyword `FEB`.
pub open spec fn pkw_feb() -> Seq<u8> {
    seq![0x46u8, 0x45u8, 0x42u8]
}

/// The keyword `MAR`.
pub open spec fn pkw_mar() -> Seq<u8> {
    seq![0x4du8, 0x41u8, 0x52u8]
}

/// The keyword `APR`.
pub open spec fn pkw_apr() -> Seq<u8> {
    seq![0x41u8, 0x50u8, 0x52u8]
}

/// The keyword `MAY`.
pub open spec fn pkw_may() -> Seq<u8> {
    seq![0x4du8, 0x41u8, 0x59u8]
}

/// The keyword `JUN`.
pub open spec fn pkw_jun() -> Seq<u8> {
    seq![0x4au8, 0x55u8, 0x4eu8]
}

/// The keyword `JUL`.
pub open spec fn pkw_jul() -> Seq<u8> {
    seq![0x4au8, 0x55u8, 0x4cu8]
}

/// The keyword `AUG`.
pub open spec fn pkw_aug() -> Seq<u8> {
    seq![0x41u8, 0x55u8, 0x47u8]
}

/// The keyword `SEP`.
pub open spec fn pkw_sep() -> Seq<u8> {
    seq![0x53u8, 0x45u8, 0x50u8]
}

/// The keyword `OCT`.
pub open spec fn pkw_oct() -> Seq<u8> {
    seq![0x4fu8, 0x43u8, 0x54u8]
}

/// The keyword `NOV`.
pub open spec fn pkw_nov() -> Seq<u8> {
    seq![0x4eu8, 0x4fu8, 0x56u8]
}

/// The keyword `DEC`.
pub open spec fn pkw_dec() -> Seq<u8> {
    seq![0x44u8, 0x45u8, 0x43u8]
}

/// The keyword `ANSWERED`.
pub open spec fn pkw_answered() -> Seq<u8> {
    seq![0x41u8, 0x4eu8, 0x53u8, 0x57u8, 0x45u8, 0x52u8, 0x45u8, 0x44u8]
}

/// The keyword `FLAGGED`.
pub open spec fn pkw_flagged() -> Seq<u8> {
    seq![0x46u8, 0x4cu8, 0x41u8, 0x47u8, 0x47u8, 0x45u8, 0x44u8]
}

/// The keyword `DELETED`.
pub open spec fn pkw_deleted() -> Seq<u8> {
    seq![0x44u8, 0x45u8, 0x4cu8, 0x45u8, 0x54u8, 0x45u8, 0x44u8]
}

/// The keyword `SEEN`.
pub open spec fn pkw_seen() -> Seq<u8> {
    seq![0x53u8, 0x45u8, 0x45u8, 0x4eu8]
}

/// The keyword `DRAFT`.
pub open spec fn pkw_draft() -> Seq<u8> {
    seq![0x44u8, 0x52u8, 0x41u8, 0x46u8, 0x54u8]
}

/// The keyword `RECENT`.
pub open spec fn pkw_recent() -> Seq<u8> {
    seq![0x52u8, 0x45u8, 0x43u8, 0x45u8, 0x4eu8, 0x54u8]
}

/// The keyword `HEADER.FIELDS.NOT`.
pub open spec fn pkw_header_fields_not() -> Seq<u8> {
    seq![0x48u8, 0x45u8, 0x41u8, 0x44u8, 0x45u8, 0x52u8, 0x2eu8, 0x46u8, 0x49u8, 0x45u8, 0x4cu8, 0x44u8, 0x53u8, 0x2eu8, 0x4eu8, 0x4fu8, 0x54u8]
}

/// The keyword `HEADER.FIELDS`.
pub open spec fn pkw_header_fields() -> Seq<u8> {
    seq![0x48u8, 0x45u8, 0x41u8, 0x44u8, 0x45u8, 0x52u8, 0x2eu8, 0x46u8, 0x49u8, 0x45u8, 0x4cu8, 0x44u8, 0x53u8]
}

/// The keyword `HEADER`.
pub open spec fn pkw_header() -> Seq<u8> {
    seq![0x48u8, 0x45u8, 0x41u8, 0x44u8, 0x45u8, 0x52u8]
}

/// The keyword `TEXT`.
pub open spec fn pkw_text() -> Seq<u8> {
    seq![0x54u8, 0x45u8, 0x58u8, 0x54u8]
}

/// The keyword `MIME`.
pub open spec fn pkw_mime() -> Seq<u8> {
    seq![0x4du8, 0x49u8, 0x4du8, 0x45u8]
}

/// The keyword `BODY.PEEK`.
pub open spec fn pkw_body_peek() -> Seq<u8> {
    seq![0x42u8, 0x4fu8, 0x44u8, 0x59u8, 0x2eu8, 0x50u8, 0x45u8, 0x45u8, 0x4bu8]
}

/// The keyword `BODYSTRUCTURE`.
pub open spec fn pkw_bodystructure() -> Seq<u8> {
    seq![0x42u8, 0x4fu8, 0x44u8, 0x59u8, 0x53u8, 0x54u8, 0x52u8, 0x55u8, 0x43u8, 0x54u8, 0x55u8, 0x52u8, 0x45u8]
}

/// The keyword `BODY`.
pub open spec fn pkw_body() -> Seq<u8> {
    seq![0x42u8, 0x4fu8, 0x44u8, 0x59u8]
}

/// The keyword `ENVELOPE`.
pub open spec fn pkw_envelope() -> Seq<u8> {
    seq![0x45u8, 0x4eu8, 0x56u8, 0x45u8, 0x4cu8, 0x4fu8, 0x50u8, 0x45u8]
}

/// The keyword `FLAGS`.
pub open spec fn pkw_flags() -> Seq<u8> {
    seq![0x46u8, 0x4cu8, 0x41u8, 0x47u8, 0x53u8]
}

/// The keyword `INTERNALDATE`.
pub open spec fn pkw_internaldate() -> Seq<u8> {
    seq![0x49u8, 0x4eu8, 0x54u8, 0x45u8, 0x52u8, 0x4eu8, 0x41u8, 0x4cu8, 0x44u8, 0x41u8, 0x54u8, 0x45u8]
}

/// The keyword `RFC822.HEADER`.
pub open spec fn pkw_rfc822_header() -> Seq<u8> {
    seq![0x52u8, 0x46u8, 0x43u8, 0x38u8, 0x32u8, 0x32u8, 0x2eu8, 0x48u8, 0x45u8, 0x41u8, 0x44u8, 0x45u8, 0x52u8]
}

/// The keyword `RFC822.SIZE`.
pub open spec fn pkw_rfc822_size() -> Seq<u8> {
    seq![0x52u8, 0x46u8, 0x43u8, 0x38u8, 0x32u8, 0x32u8, 0x2eu8, 0x53u8, 0x49u8, 0x5au8, 0x45u8]
}

/// The keyword `RFC822.TEXT`.
pub open spec fn pkw_rfc822_text() -> Seq<u8> {
    seq![0x52u8, 0x46u8, 0x43u8, 0x38u8, 0x32u8, 0x32u8, 0x2eu8, 0x54u8, 0x45u8, 0x58u8, 0x54u8]
}

/// The keyword `RFC822`.
pub open spec fn pkw_rfc822() -> Seq<u8> {
    seq![0x52u8, 0x46u8, 0x43u8, 0x38u8, 0x32u8, 0x32u8]
}

/// The keyword `UID`.
pub open spec fn pkw_uid() -> Seq<u8> {
    seq![0x55u8, 0x49u8, 0x44u8]
}

/// The keyword `ALL`.
pub open spec fn pkw_all() -> Seq<u8> {
    seq![0x41u8, 0x4cu8, 0x4cu8]
}

/// The keyword `FAST`.
pub open spec fn pkw_fast() -> Seq<u8> {
    seq![0x46u8, 0x41u8, 0x53u8, 0x54u8]
}

/// The keyword `FULL`.
pub open spec fn pkw_full() -> Seq<u8> {
    seq![0x46u8, 0x55u8, 0x4cu8, 0x4cu8]
}

/// The keyword `FLAGS.SILENT`.
pub open spec fn pkw_flags_silent() -> Seq<u8> {
    seq![0x46u8, 0x4cu8, 0x41u8, 0x47u8, 0x53u8, 0x2eu8, 0x53u8, 0x49u8, 0x4cu8, 0x45u8, 0x4eu8, 0x54u8]
}

/// The keyword `+FLAGS`.
pub open spec fn pkw_plus_flags() -> Seq<u8> {
    seq![0x2bu8, 0x46u8, 0x4cu8, 0x41u8, 0x47u8, 0x53u8]
}

/// The keyword `+FLAGS.SILENT`.
pub open spec fn pkw_plus_flags_silent() -> Seq<u8> {
    seq![0x2bu8, 0x46u8, 0x4cu8, 0x41u8, 0x47u8, 0x53u8, 0x2eu8, 0x53u8, 0x49u8, 0x4cu8, 0x45u8, 0x4eu8, 0x54u8]
}

/// The keyword `-FLAGS`.
pub open spec fn pkw_minus_flags() -> Seq<u8> {
    seq![0x2du8, 0x46u8, 0x4cu8, 0x41u8, 0x47u8, 0x53u8]
}

/// The keyword `-FLAGS.SILENT`.
pub open spec fn pkw_minus_flags_silent() -> Seq<u8> {
    seq![0x2du8, 0x46u8, 0x4cu8, 0x41u8, 0x47u8, 0x53u8, 0x2eu8, 0x53u8, 0x49u8, 0x4cu8, 0x45u8, 0x4eu8, 0x54u8]
}

/// The keyword `BCC`.
pub open spec fn pkw_bcc() -> Seq<u8> {
    seq![0x42u8, 0x43u8, 0x43u8]
}

/// The keyword `BEFORE`.
pub open spec fn pkw_before() -> Seq<u8> {
    seq![0x42u8, 0x45u8, 0x46u8, 0x4fu8, 0x52u8, 0x45u8]
}

/// The keyword `CC`.
pub open spec fn pkw_cc() -> Seq<u8> {
    seq![0x43u8, 0x43u8]
}

/// The keyword `FROM`.
pub open spec fn pkw_from() -> Seq<u8> {
    seq![0x46u8, 0x52u8, 0x4fu8, 0x4du8]
}

/// The keyword `SUBJECT`.
pub open spec fn pkw_subject() -> Seq<u8> {
    seq![0x53u8, 0x55u8, 0x42u8, 0x4au8, 0x45u8, 0x43u8, 0x54u8]
}

/// The keyword `TO`.
pub open spec fn pkw_to() -> Seq<u8> {
    seq![0x54u8, 0x4fu8]
}

/// The keyword `ON`.
pub open spec fn pkw_on() -> Seq<u8> {
    seq![0x4fu8, 0x4eu8]
}

/// The keyword `SENTBEFORE`.
pub open spec fn pkw_sentbefore() -> Seq<u8> {
    seq![0x53u8, 0x45u8, 0x4eu8, 0x54u8, 0x42u8, 0x45u8, 0x46u8, 0x4fu8, 0x52u8, 0x45u8]
}

/// The keyword `SENTON`.
pub open spec fn pkw_senton() -> Seq<u8> {
    seq![0x53u8, 0x45u8, 0x4eu8, 0x54u8, 0x4fu8, 0x4eu8]
}

/// The keyword `SENTSINCE`.
pub open spec fn pkw_sentsince() -> Seq<u8> {
    seq![0x53u8, 0x45u8, 0x4eu8, 0x54u8, 0x53u8, 0x49u8, 0x4eu8, 0x43u8, 0x45u8]
}

/// The keyword `SINCE`.
pub open spec fn pkw_since() -> Seq<u8> {
    seq![0x53u8, 0x49u8, 0x4eu8, 0x43u8, 0x45u8]
}

/// The keyword `KEYWORD`.
pub open spec fn pkw_keyword() -> Seq<u8> {
    seq![0x4bu8, 0x45u8, 0x59u8, 0x57u8, 0x4fu8, 0x52u8, 0x44u8]
}

/// The keyword `UNKEYWORD`.
pub open spec fn pkw_unkeyword() -> Seq<u8> {
    seq![0x55u8, 0x4eu8, 0x4bu8, 0x45u8, 0x59u8, 0x57u8, 0x4fu8, 0x52u8, 0x44u8]
}

/// The keyword `LARGER`.
pub open spec fn pkw_larger() -> Seq<u8> {
    seq![0x4cu8, 0x41u8, 0x52u8, 0x47u8, 0x45u8, 0x52u8]
}

/// The keyword `SMALLER`.
pub open spec fn pkw_smaller() -> Seq<u8> {
    seq![0x53u8, 0x4du8, 0x41u8, 0x4cu8, 0x4cu8, 0x45u8, 0x52u8]
}

/// The keyword `NEW`.
pub open spec fn pkw_new() -> Seq<u8> {
    seq![0x4eu8, 0x45u8, 0x57u8]
}

/// The keyword `NOT`.
pub open spec fn pkw_not() -> Seq<u8> {
    seq![0x4eu8, 0x4fu8, 0x54u8]
}

/// The keyword `OLD`.
pub open spec fn pkw_old() -> Seq<u8> {
    seq![0x4fu8, 0x4cu8, 0x44u8]
}

/// The keyword `OR`.
pub open spec fn pkw_or() -> Seq<u8> {
    seq![0x4fu8, 0x52u8]
}

/// The keyword `UNANSWERED`.
pub open spec fn pkw_unanswered() -> Seq<u8> {
    seq![0x55u8, 0x4eu8, 0x41u8, 0x4eu8, 0x53u8, 0x57u8, 0x45u8, 0x52u8, 0x45u8, 0x44u8]
}

/// The keyword `UNDELETED`.
pub open spec fn pkw_undeleted() -> Seq<u8> {
    seq![0x55u8, 0x4eu8, 0x44u8, 0x45u8, 0x4cu8, 0x45u8, 0x54u8, 0x45u8, 0x44u8]
}

/// The keyword `UNDRAFT`.
pub open spec fn pkw_undraft() -> Seq<u8> {
    seq![0x55u8, 0x4eu8, 0x44u8, 0x52u8, 0x41u8, 0x46u8, 0x54u8]
}

/// The keyword `UNFLAGGED`.
pub open spec fn pkw_unflagged() -> Seq<u8> {
    seq![0x55u8, 0x4eu8, 0x46u8, 0x4cu8, 0x41u8, 0x47u8, 0x47u8, 0x45u8, 0x44u8]
}

/// The keyword `UNSEEN`.
pub open spec fn pkw_unseen() -> Seq<u8> {
    seq![0x55u8, 0x4eu8, 0x53u8, 0x45u8, 0x45u8, 0x4eu8]
}

/// The keyword `CAPABILITY`.
pub open spec fn pkw_capability() -> Seq<u8> {
    seq![0x43u8, 0x41u8, 0x50u8, 0x41u8, 0x42u8, 0x49u8, 0x4cu8, 0x49u8, 0x54u8, 0x59u8]
}

/// The keyword `NOOP`.
pub open spec fn pkw_noop() -> Seq<u8> {
    seq![0x4eu8, 0x4fu8, 0x4fu8, 0x50u8]
}

/// The keyword `LOGOUT`.
pub open spec fn pkw_logout() -> Seq<u8> {
    seq![0x4cu8, 0x4fu8, 0x47u8, 0x4fu8, 0x55u8, 0x54u8]
}

/// The keyword `STARTTLS`.
pub open spec fn pkw_starttls() -> Seq<u8> {
    seq![0x53u8, 0x54u8, 0x41u8, 0x52u8, 0x54u8, 0x54u8, 0x4cu8, 0x53u8]
}

/// The keyword `CHECK`.
pub open spec fn pkw_check() -> Seq<u8> {
    seq![0x43u8, 0x48u8, 0x45u8, 0x43u8, 0x4bu8]
}

/// The keyword `CLOSE`.
pub open spec fn pkw_close() -> Seq<u8> {
    seq![0x43u8, 0x4cu8, 0x4fu8, 0x53u8, 0x45u8]
}

/// The keyword `EXPUNGE`.
pub open spec fn pkw_expunge() -> Seq<u8> {
    seq![0x45u8, 0x58u8, 0x50u8, 0x55u8, 0x4eu8, 0x47u8, 0x45u8]
}

/// The keyword `LOGIN`.
pub open spec fn pkw_login() -> Seq<u8> {
    seq![0x4cu8, 0x4fu8, 0x47u8, 0x49u8, 0x4eu8]
}

/// The keyword `SELECT`.
pub open spec fn pkw_select() -> Seq<u8> {
    seq![0x53u8, 0x45u8, 0x4cu8, 0x45u8, 0x43u8, 0x54u8]
}

/// The keyword `EXAMINE`.
pub open spec fn pkw_examine() -> Seq<u8> {
    seq![0x45u8, 0x58u8, 0x41u8, 0x4du8, 0x49u8, 0x4eu8, 0x45u8]
}

/// The keyword `CREATE`.
pub open spec fn pkw_create() -> Seq<u8> {
    seq![0x43u8, 0x52u8, 0x45u8, 0x41u8, 0x54u8, 0x45u8]
}

/// The keyword `DELETE`.
pub open spec fn pkw_delete() -> Seq<u8> {
    seq![0x44u8, 0x45u8, 0x4cu8, 0x45u8, 0x54u8, 0x45u8]
}

/// The keyword `RENAME`.
pub open spec fn pkw_rename() -> Seq<u8> {
    seq![0x52u8, 0x45u8, 0x4eu8, 0x41u8, 0x4du8, 0x45u8]
}

/// The keyword `SUBSCRIBE`.
pub open spec fn pkw_subscribe() -> Seq<u8> {
    seq![0x53u8, 0x55u8, 0x42u8, 0x53u8, 0x43u8, 0x52u8, 0x49u8, 0x42u8, 0x45u8]
}

/// The keyword `UNSUBSCRIBE`.
pub open spec fn pkw_unsubscribe() -> Seq<u8> {
    seq![0x55u8, 0x4eu8, 0x53u8, 0x55u8, 0x42u8, 0x53u8, 0x43u8, 0x52u8, 0x49u8, 0x42u8, 0x45u8]
}

/// The keyword `SEARCH`.
pub open spec fn pkw_search() -> Seq<u8> {
    seq![0x53u8, 0x45u8, 0x41u8, 0x52u8, 0x43u8, 0x48u8]
}

/// The keyword `FETCH`.
pub open spec fn pkw_fetch() -> Seq<u8> {
    seq![0x46u8, 0x45u8, 0x54u8, 0x43u8, 0x48u8]
}

/// The keyword `STORE`.
pub open spec fn pkw_store() -> Seq<u8> {
    seq![0x53u8, 0x54u8, 0x4fu8, 0x52u8, 0x45u8]
}

/// The keyword `COPY`.
pub open spec fn pkw_copy() -> Seq<u8> {
    seq![0x43u8, 0x4fu8, 0x50u8, 0x59u8]
}

/// The keyword `CHARSET`.
pub open spec fn pkw_charset() -> Seq<u8> {
    seq![0x43u8, 0x48u8, 0x41u8, 0x52u8, 0x53u8, 0x45u8, 0x54u8]
}

/// The keyword `INBOX`.
pub open spec fn pkw_inbox() -> Seq<u8> {
    seq![0x49u8, 0x4eu8, 0x42u8, 0x4fu8, 0x58u8]
}


// --------------------------------------------------------------------------
// Shapes: the specification-level form of the parsed values
// --------------------------------------------------------------------------

pub ghost enum MailboxShape {
    Inbox,
    Other(crate::parse::AStringShape),
}

pub open spec fn mailbox_shape(m: Mailbox) -> MailboxShape {
    match m {
        Mailbox::Inbox => MailboxShape::Inbox,
        Mailbox::Other(a) => MailboxShape::Other(crate::parse::astring_shape(a)),
    }
}

pub ghost enum FlagShape {
    Answered,
    Flagged,
    Deleted,
    Seen,
    Draft,
    Recent,
    Keyword(Seq<u8>),
    Extension(Seq<u8>),
}

pub open spec fn flag_shape(f: Flag) -> FlagShape {
    match f {
        Flag::Answered => FlagShape::Answered,
        Flag::Flagged => FlagShape::Flagged,
        Flag::Deleted => FlagShape::Deleted,
        Flag::Seen => FlagShape::Seen,
        Flag::Draft => FlagShape::Draft,
        Flag::Recent => FlagShape::Recent,
        Flag::Keyword(a) => FlagShape::Keyword(a@),
        Flag::Extension(a) => FlagShape::Extension(a@),
    }
}

pub open spec fn flags_shape(l: Seq<Flag>) -> Seq<FlagShape> {
    l.map_values(|f: Flag| flag_shape(f))
}

pub ghost enum SectionShape {
    Part(Seq<u32>),
    Header(Option<Seq<u32>>),
    HeaderFields(Option<Seq<u32>>, Seq<crate::parse::AStringShape>),
    HeaderFieldsNot(Option<Seq<u32>>, Seq<crate::parse::AStringShape>),
    Text(Option<Seq<u32>>),
    Mime(Seq<u32>),
}

pub open spec fn opt_part_shape(p: Option<Part>) -> Option<Seq<u32>> {
    match p {
        None => None,
        Some(part) => Some(part.0@),
    }
}

pub open spec fn astrings_shape(l: Seq<AString>) -> Seq<crate::parse::AStringShape> {
    l.map_values(|a: AString| crate::parse::astring_shape(a))
}

pub open spec fn section_shape(s: Section) -> SectionShape {
    match s {
        Section::Part(p) => SectionShape::Part(p.0@),
        Section::Header(p) => SectionShape::Header(opt_part_shape(p)),
        Section::HeaderFields(p, fs) => SectionShape::HeaderFields(
            opt_part_shape(p),
            astrings_shape(fs@),
        ),
        Section::HeaderFieldsNot(p, fs) => SectionShape::HeaderFieldsNot(
            opt_part_shape(p),
            astrings_shape(fs@),
        ),
        Section::Text(p) => SectionShape::Text(opt_part_shape(p)),
        Section::Mime(p) => SectionShape::Mime(p.0@),
    }
}

pub ghost enum FetchAttShape {
    Body,
    BodyExt { section: Option<SectionShape>, partial: Option<(u32, u32)>, peek: bool },
    BodyStructure,
    Envelope,
    Flags,
    InternalDate,
    Rfc822,
    Rfc822Header,
    Rfc822Size,
    Rfc822Text,
    Uid,
}

pub open spec fn fetch_att_shape(a: FetchAttribute) -> FetchAttShape {
    match a {
        FetchAttribute::Body => FetchAttShape::Body,
        FetchAttribute::BodyExt { section, partial, peek } => FetchAttShape::BodyExt {
            section: match section {
                None => None,
                Some(s) => Some(section_shape(s)),
            },
            partial,
            peek,
        },
        FetchAttribute::BodyStructure => FetchAttShape::BodyStructure,
        FetchAttribute::Envelope => FetchAttShape::Envelope,
        FetchAttribute::Flags => FetchAttShape::Flags,
        FetchAttribute::InternalDate => FetchAttShape::InternalDate,
        FetchAttribute::Rfc822 => FetchAttShape::Rfc822,
        FetchAttribute::Rfc822Header => FetchAttShape::Rfc822Header,
        FetchAttribute::Rfc822Size => FetchAttShape::Rfc822Size,
        FetchAttribute::Rfc822Text => FetchAttShape::Rfc822Text,
        FetchAttribute::Uid => FetchAttShape::Uid,
    }
}

pub ghost enum FetchAttsShape {
    Macro(Macro),
    Atts(Seq<FetchAttShape>),
}

pub open spec fn fetch_att_shapes(l: Seq<FetchAttribute>) -> Seq<FetchAttShape> {
    l.map_values(|x: FetchAttribute| fetch_att_shape(x))
}

pub open spec fn fetch_atts_shape(a: MacroOrFetchAttributes) -> FetchAttsShape {
    match a {
        MacroOrFetchAttributes::Macro(m) => FetchAttsShape::Macro(m),
        MacroOrFetchAttributes::FetchAttributes(l) => FetchAttsShape::Atts(fetch_att_shapes(l@)),
    }
}

/// The word `input[pos..wend]` is the given upper-case keyword, compared
/// case-insensitively.
fn word_is(input: &[u8], pos: usize, wend: usize, w: &[u8]) -> (r: bool)
    requires
        pos <= wend <= input@.len(),
    ensures
        r == (upper_seq(input@.subrange(pos as int, wend as int)) == w@),
{
    crate::primitive::eq_ignore_case(
        vstd::slice::slice_subrange(input, pos, wend),
        w,
    )
}

// --------------------------------------------------------------------------
// Mailboxes, months, dates, flags
// --------------------------------------------------------------------------

/// `mailbox`: an astring; any spelling of `INBOX` is the reserved mailbox.
pub open spec fn spec_mailbox(s: Seq<u8>, i: int) -> Option<(MailboxShape, int)> {
    match crate::parse::spec_astring(s, i) {
        Some((sh, j)) => Some(
            (
                if upper_seq(crate::parse::astring_shape_content(sh)) == pkw_inbox() {
                    MailboxShape::Inbox
                } else {
                    MailboxShape::Other(sh)
                },
                j,
            ),
        ),
        None => None,
    }
}

fn mailbox(input: &[u8], pos: usize) -> (r: Option<(Mailbox, usize)>)
    requires
        pos <= input@.len(),
    ensures
        match spec_mailbox(input@, pos as int) {
            Some((g, j)) => r matches Some((m, rj)) && mailbox_shape(m) == g && m.wf() && rj == j
                && pos < j <= input@.len(),
            None => r is None,
        },
{
    match astring(input, pos) {
        Some((a, j)) => {
            proof {
                crate::parse::lemma_astring_shape_content(a);
                assert(crate::command::tok_inbox() =~= pkw_inbox());
            }
            Some((Mailbox::from_astring(a), j))
        },
        None => None,
    }
}

/// A three-letter month name, case-insensitive.
pub open spec fn spec_month(s: Seq<u8>, i: int) -> Option<(u8, int)> {
    if i + 3 > s.len() {
        None
    } else {
        let w = upper_seq(s.subrange(i, i + 3));
        if w == pkw_jan() {
            Some((1, i + 3))
        } else if w == pkw_feb() {
            Some((2, i + 3))
        } else if w == pkw_mar() {
            Some((3, i + 3))
        } else if w == pkw_apr() {
            Some((4, i + 3))
        } else if w == pkw_may() {
            Some((5, i + 3))
        } else if w == pkw_jun() {
            Some((6, i + 3))
        } else if w == pkw_jul() {
            Some((7, i + 3))
        } else if w == pkw_aug() {
            Some((8, i + 3))
        } else if w == pkw_sep() {
            Some((9, i + 3))
        } else if w == pkw_oct() {
            Some((10, i + 3))
        } else if w == pkw_nov() {
            Some((11, i + 3))
        } else if w == pkw_dec() {
            Some((12, i + 3))
        } else {
            None
        }
    }
}

fn month(input: &[u8], pos: usize) -> (r: Option<(u8, usize)>)
    requires
        pos <= input@.len(),
    ensures
        match spec_month(input@, pos as int) {
            Some((m, j)) => r matches Some((rm, rj)) && rm == m && rj == j && 1 <= m <= 12 && pos
                < j <= input@.len(),
            None => r is None,
        },
{
    let n = input.len();
    if n - pos < 3 {
        return None;
    }
    let w0: [u8; 3] = [0x4a, 0x41, 0x4e];
    proof {
        assert(w0@ =~= pkw_jan());
    }
    if word_is(input, pos, pos + 3, w0.as_slice()) {
        return Some((1, pos + 3));
    }
    let w1: [u8; 3] = [0x46, 0x45, 0x42];
    proof {
        assert(w1@ =~= pkw_feb());
    }
    if word_is(input, pos, pos + 3, w1.as_slice()) {
        return Some((2, pos + 3));
    }
    let w2: [u8; 3] = [0x4d, 0x41, 0x52];
    proof {
        assert(w2@ =~= pkw_mar());
    }
    if word_is(input, pos, pos + 3, w2.as_slice()) {
        return Some((3, pos + 3));
    }
    let w3: [u8; 3] = [0x41, 0x50, 0x52];
    proof {
        assert(w3@ =~= pkw_apr());
    }
    if word_is(input, pos, pos + 3, w3.as_slice()) {
        return Some((4, pos + 3));
    }
    let w4: [u8; 3] = [0x4d, 0x41, 0x59];
    proof {
        assert(w4@ =~= pkw_may());
    }
    if word_is(input, pos, pos + 3, w4.as_slice()) {
        return Some((5, pos + 3));
    }
    let w5: [u8; 3] = [0x4a, 0x55, 0x4e];
    proof {
        assert(w5@ =~= pkw_jun());
    }
    if word_is(input, pos, pos + 3, w5.as_slice()) {
        return Some((6, pos + 3));
    }
    let w6: [u8; 3] = [0x4a, 0x55, 0x4c];
    proof {
        assert(w6@ =~= pkw_jul());
    }
    if word_is(input, pos, pos + 3, w6.as_slice()) {
        return Some((7, pos + 3));
    }
    let w7: [u8; 3] = [0x41, 0x55, 0x47];
    proof {
        assert(w7@ =~= pkw_aug());
    }
    if word_is(input, pos, pos + 3, w7.as_slice()) {
        return Some((8, pos + 3));
    }
    let w8: [u8; 3] = [0x53, 0x45, 0x50];
    proof {
        assert(w8@ =~= pkw_sep());
    }
    if word_is(input, pos, pos + 3, w8.as_slice()) {
        return Some((9, pos + 3));
    }
    let w9: [u8; 3] = [0x4f, 0x43, 0x54];
    proof {
        assert(w9@ =~= pkw_oct());
    }
    if word_is(input, pos, pos + 3, w9.as_slice()) {
        return Some((10, pos + 3));
    }
    let w10: [u8; 3] = [0x4e, 0x4f, 0x56];
    proof {
        assert(w10@ =~= pkw_nov());
    }
    if word_is(input, pos, pos + 3, w10.as_slice()) {
        return Some((11, pos + 3));
    }
    let w11: [u8; 3] = [0x44, 0x45, 0x43];
    proof {
        assert(w11@ =~= pkw_dec());
    }
    if word_is(input, pos, pos + 3, w11.as_slice()) {
        return Some((12, pos + 3));
    }
    None
}


/// `date`: day, month name and four-digit year, dash-separated, optionally
/// inside double quotes; only real calendar dates are accepted.
pub open spec fn spec_date(s: Seq<u8>, i: int) -> Option<(Date, int)> {
    let quoted = crate::parse::byte_at(s, i, 0x22);
    let start = if quoted {
        i + 1
    } else {
        i
    };
    match crate::parse::spec_number(s, start) {
        None => None,
        Some((day, j)) => if day < 1 || day > 31 || j - start > 2 || !crate::parse::byte_at(
            s,
            j,
            0x2d,
        ) {
            None
        } else {
            match spec_month(s, j + 1) {
                None => None,
                Some((m, j2)) => if !crate::parse::byte_at(s, j2, 0x2d) {
                    None
                } else {
                    let ystart = j2 + 1;
                    let yend = crate::parse::span(s, ystart, |b: u8| is_digit(b));
                    if yend - ystart != 4 {
                        None
                    } else {
                        match crate::parse::spec_number(s, ystart) {
                            None => None,
                            Some((year, j3)) => if year > 9999 {
                                None
                            } else {
                                let j4 = if quoted {
                                    j3 + 1
                                } else {
                                    j3
                                };
                                if quoted && !crate::parse::byte_at(s, j3, 0x22) {
                                    None
                                } else if Date::is_valid(year as u16, m, day as u8) {
                                    Some(
                                        (
                                            Date { year: year as u16, month: m, day: day as u8 },
                                            j4,
                                        ),
                                    )
                                } else {
                                    None
                                }
                            },
                        }
                    }
                },
            }
        },
    }
}

fn date(input: &[u8], pos: usize) -> (r: Option<(Date, usize)>)
    requires
        pos <= input@.len(),
    ensures
        match spec_date(input@, pos as int) {
            Some((d, j)) => r matches Some((rd, rj)) && rd == d && rj == j && d.wf() && pos < j
                <= input@.len(),
            None => r is None,
        },
{
    let n = input.len();
    let quoted = expect_byte(input, pos, 0x22);
    let start = if quoted {
        pos + 1
    } else {
        pos
    };
    let (day, j) = match number(input, start) {
        Some(p) => p,
        None => {
            return None;
        },
    };
    if day < 1 || day > 31 || j - start > 2 {
        return None;
    }
    if !expect_byte(input, j, 0x2d) {
        return None;
    }
    let (m, j2) = match month(input, j + 1) {
        Some(p) => p,
        None => {
            return None;
        },
    };
    if !expect_byte(input, j2, 0x2d) {
        return None;
    }
    let ystart = j2 + 1;
    let yend = span_digit(input, ystart);
    if yend - ystart != 4 {
        return None;
    }
    let (year, j3) = match number(input, ystart) {
        Some(p) => p,
        None => {
            return None;
        },
    };
    if year > 9999 {
        return None;
    }
    let j4 = if quoted {
        if !expect_byte(input, j3, 0x22) {
            return None;
        }
        j3 + 1
    } else {
        j3
    };
    match Date::new(year as u16, m, day as u8) {
        Ok(d) => Some((d, j4)),
        Err(_) => None,
    }
}

/// `flag`: an optional backslash followed by an atom; the system flags
/// are recognized case-insensitively.
pub open spec fn spec_flag(s: Seq<u8>, i: int) -> Option<(FlagShape, int)> {
    if crate::parse::byte_at(s, i, 0x5c) {
        match crate::parse::spec_atom(s, i + 1) {
            None => None,
            Some((c, j)) => {
                let u = upper_seq(c);
                if u == pkw_answered() {
                    Some((FlagShape::Answered, j))
                } else if u == pkw_flagged() {
                    Some((FlagShape::Flagged, j))
                } else if u == pkw_deleted() {
                    Some((FlagShape::Deleted, j))
                } else if u == pkw_seen() {
                    Some((FlagShape::Seen, j))
                } else if u == pkw_draft() {
                    Some((FlagShape::Draft, j))
                } else if u == pkw_recent() {
                    Some((FlagShape::Recent, j))
                } else {
                    Some((FlagShape::Extension(c), j))
                }
            },
        }
    } else {
        match crate::parse::spec_atom(s, i) {
            Some((c, j)) => Some((FlagShape::Keyword(c), j)),
            None => None,
        }
    }
}

pub proof fn lemma_spec_flag_advances(s: Seq<u8>, i: int)
    requires
        0 <= i <= s.len(),
    ensures
        spec_flag(s, i) matches Some((f, j)) ==> i < j <= s.len(),
{
    crate::parse::lemma_span_props(s, i, |b: u8| is_atom_char(b));
    if crate::parse::byte_at(s, i, 0x5c) {
        crate::parse::lemma_span_props(s, i + 1, |b: u8| is_atom_char(b));
    }
}

fn flag(input: &[u8], pos: usize) -> (r: Option<(Flag, usize)>)
    requires
        pos <= input@.len(),
    ensures
        match spec_flag(input@, pos as int) {
            Some((g, j)) => r matches Some((f, rj)) && flag_shape(f) == g && f.wf() && rj == j
                && pos < j <= input@.len(),
            None => r is None,
        },
{
    let n = input.len();
    if expect_byte(input, pos, 0x5c) {
        let (a, j) = match crate::parse::atom(input, pos + 1) {
            Some(p) => p,
            None => {
                return None;
            },
        };
        let wend = j;
        let wstart = pos + 1;
        let f0: [u8; 8] = [0x41, 0x4e, 0x53, 0x57, 0x45, 0x52, 0x45, 0x44];
        proof {
            assert(f0@ =~= pkw_answered());
        }
        if word_is(input, wstart, wend, f0.as_slice()) {
            return Some((Flag::Answered, j));
        }
        let f1: [u8; 7] = [0x46, 0x4c, 0x41, 0x47, 0x47, 0x45, 0x44];
        proof {
            assert(f1@ =~= pkw_flagged());
        }
        if word_is(input, wstart, wend, f1.as_slice()) {
            return Some((Flag::Flagged, j));
        }
        let f2: [u8; 7] = [0x44, 0x45, 0x4c, 0x45, 0x54, 0x45, 0x44];
        proof {
            assert(f2@ =~= pkw_deleted());
        }
        if word_is(input, wstart, wend, f2.as_slice()) {
            return Some((Flag::Deleted, j));
        }
        let f3: [u8; 4] = [0x53, 0x45, 0x45, 0x4e];
        proof {
            assert(f3@ =~= pkw_seen());
        }
        if word_is(input, wstart, wend, f3.as_slice()) {
            return Some((Flag::Seen, j));
        }
        let f4: [u8; 5] = [0x44, 0x52, 0x41, 0x46, 0x54];
        proof {
            assert(f4@ =~= pkw_draft());
        }
        if word_is(input, wstart, wend, f4.as_slice()) {
            return Some((Flag::Draft, j));
        }
        let f5: [u8; 6] = [0x52, 0x45, 0x43, 0x45, 0x4e, 0x54];
        proof {
            assert(f5@ =~= pkw_recent());
        }
        if word_is(input, wstart, wend, f5.as_slice()) {
            return Some((Flag::Recent, j));
        }
        return Some((Flag::Extension(a), j));
    }
    match crate::parse::atom(input, pos) {
        Some((a, j)) => Some((Flag::Keyword(a), j)),
        None => None,
    }
}

// --------------------------------------------------------------------------
// Flag lists, part numbers, header lists
// --------------------------------------------------------------------------

/// Flags inside a parenthesized list, up to and including the closing
/// parenthesis.
pub open spec fn spec_flags_paren(s: Seq<u8>, i: int) -> Option<(Seq<FlagShape>, int)>
    decreases s.len() - i,
    when 0 <= i <= s.len()
    via spec_flags_paren_decreases
{
    match spec_flag(s, i) {
        None => None,
        Some((f, j)) => if crate::parse::byte_at(s, j, 0x29) {
            Some((seq![f], j + 1))
        } else if crate::parse::byte_at(s, j, 0x20) {
            match spec_flags_paren(s, j + 1) {
                Some((t, k)) => Some((seq![f] + t, k)),
                None => None,
            }
        } else {
            None
        },
    }
}

#[via_fn]
proof fn spec_flags_paren_decreases(s: Seq<u8>, i: int) {
    lemma_spec_flag_advances(s, i);
}

/// One or more bare flags, space-separated.
pub open spec fn spec_flags_bare(s: Seq<u8>, i: int) -> Option<(Seq<FlagShape>, int)>
    decreases s.len() - i,
    when 0 <= i <= s.len()
    via spec_flags_bare_decreases
{
    match spec_flag(s, i) {
        None => None,
        Some((f, j)) => if crate::parse::byte_at(s, j, 0x20) {
            match spec_flags_bare(s, j + 1) {
                Some((t, k)) => Some((seq![f] + t, k)),
                None => None,
            }
        } else {
            Some((seq![f], j))
        },
    }
}

#[via_fn]
proof fn spec_flags_bare_decreases(s: Seq<u8>, i: int) {
    lemma_spec_flag_advances(s, i);
}

/// A parenthesized flag list (possibly empty), or one or more bare flags.
pub open spec fn spec_store_flags(s: Seq<u8>, i: int) -> Option<(Seq<FlagShape>, int)> {
    if crate::parse::byte_at(s, i, 0x28) {
        if crate::parse::byte_at(s, i + 1, 0x29) {
            Some((Seq::empty(), i + 2))
        } else {
            spec_flags_paren(s, i + 1)
        }
    } else {
        spec_flags_bare(s, i)
    }
}

fn store_flags(input: &[u8], pos: usize) -> (r: Option<(Vec<Flag>, usize)>)
    requires
        pos <= input@.len(),
    ensures
        match spec_store_flags(input@, pos as int) {
            Some((g, j)) => r matches Some((fs, rj)) && flags_shape(fs@) == g && rj == j && pos
                < j <= input@.len() && forall|i: int|
                0 <= i < fs@.len() ==> (#[trigger] fs@[i]).wf(),
            None => r is None,
        },
{
    let n = input.len();
    let mut flags: Vec<Flag> = Vec::new();
    if expect_byte(input, pos, 0x28) {
        if expect_byte(input, pos + 1, 0x29) {
            assert(flags_shape(flags@) =~= Seq::<FlagShape>::empty());
            return Some((flags, pos + 2));
        }
        let mut cur = pos + 1;
        proof {
            match spec_flags_paren(input@, pos + 1) {
                Some((t, k)) => {
                    assert(flags_shape(flags@) + t =~= t);
                },
                None => {},
            }
        }
        loop
            invariant
                pos < cur <= n,
                n == input@.len(),
                n <= usize::MAX,
                forall|i: int| 0 <= i < flags@.len() ==> (#[trigger] flags@[i]).wf(),
                match spec_flags_paren(input@, cur as int) {
                    Some((t, k)) => spec_store_flags(input@, pos as int) matches Some((all, ak))
                        && all == flags_shape(flags@) + t && ak == k,
                    None => spec_store_flags(input@, pos as int) is None,
                },
            decreases n - cur,
        {
            let (f, j) = match flag(input, cur) {
                Some(p) => p,
                None => {
                    return None;
                },
            };
            proof {
                assert(flags_shape(flags@.push(f)) =~= flags_shape(flags@).push(flag_shape(f)));
            }
            flags.push(f);
            if expect_byte(input, j, 0x29) {
                proof {
                    assert(flags_shape(flags@.drop_last()) + seq![flag_shape(f)] =~= flags_shape(
                        flags@,
                    ));
                }
                return Some((flags, j + 1));
            }
            if !expect_byte(input, j, 0x20) {
                return None;
            }
            proof {
                match spec_flags_paren(input@, j + 1) {
                    Some((t, k)) => {
                        assert(flags_shape(flags@.drop_last()) + (seq![flag_shape(f)] + t)
                            =~= flags_shape(flags@) + t);
                    },
                    None => {},
                }
            }
            cur = j + 1;
        }
    }
    let mut cur = pos;
    proof {
        match spec_flags_bare(input@, pos as int) {
            Some((t, k)) => {
                assert(flags_shape(flags@) + t =~= t);
            },
            None => {},
        }
    }
    loop
        invariant
            pos <= cur <= n,
            n == input@.len(),
            n <= usize::MAX,
            !crate::parse::byte_at(input@, pos as int, 0x28),
            forall|i: int| 0 <= i < flags@.len() ==> (#[trigger] flags@[i]).wf(),
            match spec_flags_bare(input@, cur as int) {
                Some((t, k)) => spec_store_flags(input@, pos as int) matches Some((all, ak))
                    && all == flags_shape(flags@) + t && ak == k,
                None => spec_store_flags(input@, pos as int) is None,
            },
        decreases n - cur,
    {
        let (f, j) = match flag(input, cur) {
            Some(p) => p,
            None => {
                return None;
            },
        };
        proof {
            assert(flags_shape(flags@.push(f)) =~= flags_shape(flags@).push(flag_shape(f)));
        }
        flags.push(f);
        if !expect_byte(input, j, 0x20) {
            proof {
                assert(flags_shape(flags@.drop_last()) + seq![flag_shape(f)] =~= flags_shape(
                    flags@,
                ));
            }
            return Some((flags, j));
        }
        proof {
            match spec_flags_bare(input@, j + 1) {
                Some((t, k)) => {
                    assert(flags_shape(flags@.drop_last()) + (seq![flag_shape(f)] + t)
                        =~= flags_shape(flags@) + t);
                },
                None => {},
            }
        }
        cur = j + 1;
    }
}

/// Dot-separated non-zero part numbers.
pub open spec fn spec_part_numbers(s: Seq<u8>, i: int) -> Option<(Seq<u32>, int)>
    decreases s.len() - i,
    when 0 <= i <= s.len()
    via spec_part_numbers_decreases
{
    match crate::parse::spec_number(s, i) {
        None => None,
        Some((v, j)) => if v == 0 {
            None
        } else if crate::parse::byte_at(s, j, 0x2e) && j + 1 < s.len() && is_digit(s[j + 1]) {
            match spec_part_numbers(s, j + 1) {
                Some((t, k)) => Some((seq![v] + t, k)),
                None => None,
            }
        } else {
            Some((seq![v], j))
        },
    }
}

#[via_fn]
proof fn spec_part_numbers_decreases(s: Seq<u8>, i: int) {
    crate::parse::lemma_span_props(s, i, |b: u8| is_digit(b));
}

pub proof fn lemma_spec_part_numbers_advances(s: Seq<u8>, i: int)
    requires
        0 <= i <= s.len(),
    ensures
        spec_part_numbers(s, i) matches Some((p, j)) ==> i < j <= s.len(),
    decreases s.len() - i,
{
    crate::parse::lemma_span_props(s, i, |b: u8| is_digit(b));
    match crate::parse::spec_number(s, i) {
        Some((v, j)) => {
            if v != 0 && crate::parse::byte_at(s, j, 0x2e) && j + 1 < s.len() && is_digit(
                s[j + 1],
            ) {
                lemma_spec_part_numbers_advances(s, j + 1);
            }
        },
        None => {},
    }
}

fn part_numbers(input: &[u8], pos: usize) -> (r: Option<(Part, usize)>)
    requires
        pos <= input@.len(),
    ensures
        match spec_part_numbers(input@, pos as int) {
            Some((g, j)) => r matches Some((p, rj)) && p.0@ == g && p.wf() && rj == j && pos < j
                <= input@.len(),
            None => r is None,
        },
{
    let n = input.len();
    let mut nums: Vec<u32> = Vec::new();
    let mut cur = pos;
    proof {
        match spec_part_numbers(input@, pos as int) {
            Some((t, k)) => {
                assert(nums@ + t =~= t);
            },
            None => {},
        }
    }
    loop
        invariant
            pos <= cur <= n,
            n == input@.len(),
            n <= usize::MAX,
            forall|i: int| 0 <= i < nums@.len() ==> nums@[i] > 0,
            match spec_part_numbers(input@, cur as int) {
                Some((t, k)) => spec_part_numbers(input@, pos as int) matches Some((all, ak))
                    && all == nums@ + t && ak == k,
                None => spec_part_numbers(input@, pos as int) is None,
            },
        decreases n - cur,
    {
        let (v, j) = match number(input, cur) {
            Some(p) => p,
            None => {
                return None;
            },
        };
        if v == 0 {
            return None;
        }
        nums.push(v);
        if expect_byte(input, j, 0x2e) && j + 1 < n && 0x30 <= input[j + 1] && input[j + 1]
            <= 0x39 {
            proof {
                match spec_part_numbers(input@, j + 1) {
                    Some((t, k)) => {
                        assert(nums@.drop_last() + (seq![v] + t) =~= nums@ + t);
                    },
                    None => {},
                }
            }
            cur = j + 1;
        } else {
            proof {
                assert(nums@.drop_last() + seq![v] =~= nums@);
            }
            match NonEmptyVec::new(nums) {
                Ok(nev) => {
                    return Some((Part(nev), j));
                },
                Err(_) => {
                    return None;
                },
            }
        }
    }
}

/// The astrings of a parenthesized header-field list, up to and including
/// the closing parenthesis.
pub open spec fn spec_hl_items(s: Seq<u8>, i: int) -> Option<(
    Seq<crate::parse::AStringShape>,
    int,
)>
    decreases s.len() - i,
    when 0 <= i <= s.len()
    via spec_hl_items_decreases
{
    match crate::parse::spec_astring(s, i) {
        None => None,
        Some((a, j)) => if crate::parse::byte_at(s, j, 0x29) {
            Some((seq![a], j + 1))
        } else if crate::parse::byte_at(s, j, 0x20) {
            match spec_hl_items(s, j + 1) {
                Some((t, k)) => Some((seq![a] + t, k)),
                None => None,
            }
        } else {
            None
        },
    }
}

#[via_fn]
proof fn spec_hl_items_decreases(s: Seq<u8>, i: int) {
    crate::parse::lemma_spec_astring_advances(s, i);
}

pub proof fn lemma_spec_hl_items_advances(s: Seq<u8>, i: int)
    requires
        0 <= i <= s.len(),
    ensures
        spec_hl_items(s, i) matches Some((l, j)) ==> i < j <= s.len(),
    decreases s.len() - i,
{
    crate::parse::lemma_spec_astring_advances(s, i);
    match crate::parse::spec_astring(s, i) {
        Some((a, j)) => {
            if !crate::parse::byte_at(s, j, 0x29) && crate::parse::byte_at(s, j, 0x20) {
                lemma_spec_hl_items_advances(s, j + 1);
            }
        },
        None => {},
    }
}

/// A parenthesized, space-separated header-field name list.
pub open spec fn spec_header_list(s: Seq<u8>, i: int) -> Option<(
    Seq<crate::parse::AStringShape>,
    int,
)> {
    if crate::parse::byte_at(s, i, 0x28) {
        spec_hl_items(s, i + 1)
    } else {
        None
    }
}

fn header_list(input: &[u8], pos: usize) -> (r: Option<(NonEmptyVec<AString>, usize)>)
    requires
        pos <= input@.len(),
    ensures
        match spec_header_list(input@, pos as int) {
            Some((g, j)) => r matches Some((l, rj)) && astrings_shape(l@) == g && rj == j && pos
                < j <= input@.len() && l@.len() > 0 && forall|i: int|
                0 <= i < l@.len() ==> (#[trigger] l@[i]).wf(),
            None => r is None,
        },
{
    let n = input.len();
    if !expect_byte(input, pos, 0x28) {
        return None;
    }
    let mut fields: Vec<AString> = Vec::new();
    let mut cur = pos + 1;
    proof {
        match spec_hl_items(input@, pos + 1) {
            Some((t, k)) => {
                assert(astrings_shape(fields@) + t =~= t);
            },
            None => {},
        }
    }
    loop
        invariant
            pos < cur <= n,
            n == input@.len(),
            n <= usize::MAX,
            crate::parse::byte_at(input@, pos as int, 0x28),
            forall|i: int| 0 <= i < fields@.len() ==> (#[trigger] fields@[i]).wf(),
            match spec_hl_items(input@, cur as int) {
                Some((t, k)) => spec_hl_items(input@, pos + 1) matches Some((all, ak)) && all
                    == astrings_shape(fields@) + t && ak == k,
                None => spec_hl_items(input@, pos + 1) is None,
            },
        decreases n - cur,
    {
        let (a, j) = match astring(input, cur) {
            Some(p) => p,
            None => {
                return None;
            },
        };
        proof {
            assert(astrings_shape(fields@.push(a)) =~= astrings_shape(fields@).push(
                crate::parse::astring_shape(a),
            ));
        }
        fields.push(a);
        if expect_byte(input, j, 0x29) {
            proof {
                assert(astrings_shape(fields@.drop_last()) + seq![crate::parse::astring_shape(a)]
                    =~= astrings_shape(fields@));
            }
            match NonEmptyVec::new(fields) {
                Ok(nev) => {
                    return Some((nev, j + 1));
                },
                Err(_) => {
                    return None;
                },
            }
        }
        if !expect_byte(input, j, 0x20) {
            return None;
        }
        proof {
            match spec_hl_items(input@, j + 1) {
                Some((t, k)) => {
                    assert(astrings_shape(fields@.drop_last()) + (seq![crate::parse::astring_shape(
                        a,
                    )] + t) =~= astrings_shape(fields@) + t);
                },
                None => {},
            }
        }
        cur = j + 1;
    }
}

// --------------------------------------------------------------------------
// Sections and fetch attributes
// --------------------------------------------------------------------------

/// The keyword part of a section, after any part numbers.
pub open spec fn spec_section_word(s: Seq<u8>, i: int, part: Option<Seq<u32>>) -> Option<(
    SectionShape,
    int,
)> {
    let wend = crate::parse::span(s, i, |b: u8| is_atom_char(b));
    if wend == i {
        None
    } else {
        let w = upper_seq(s.subrange(i, wend));
        if w == pkw_header_fields_not() {
            if crate::parse::byte_at(s, wend, 0x20) {
                match spec_header_list(s, wend + 1) {
                    Some((l, j)) => Some((SectionShape::HeaderFieldsNot(part, l), j)),
                    None => None,
                }
            } else {
                None
            }
        } else if w == pkw_header_fields() {
            if crate::parse::byte_at(s, wend, 0x20) {
                match spec_header_list(s, wend + 1) {
                    Some((l, j)) => Some((SectionShape::HeaderFields(part, l), j)),
                    None => None,
                }
            } else {
                None
            }
        } else if w == pkw_header() {
            Some((SectionShape::Header(part), wend))
        } else if w == pkw_text() {
            Some((SectionShape::Text(part), wend))
        } else if w == pkw_mime() {
            match part {
                Some(p) => Some((SectionShape::Mime(p), wend)),
                None => None,
            }
        } else {
            None
        }
    }
}

/// `section`: the text between the brackets of a BODY fetch attribute.
pub open spec fn spec_section_inner(s: Seq<u8>, i: int) -> Option<(SectionShape, int)> {
    if i < s.len() && is_digit(s[i]) {
        match spec_part_numbers(s, i) {
            None => None,
            Some((p, j)) => if crate::parse::byte_at(s, j, 0x2e) {
                spec_section_word(s, j + 1, Some(p))
            } else {
                Some((SectionShape::Part(p), j))
            },
        }
    } else {
        spec_section_word(s, i, None)
    }
}

pub proof fn lemma_spec_section_word_advances(s: Seq<u8>, i: int, part: Option<Seq<u32>>)
    requires
        0 <= i <= s.len(),
    ensures
        spec_section_word(s, i, part) matches Some((sec, j)) ==> i < j <= s.len(),
{
    crate::parse::lemma_span_props(s, i, |b: u8| is_atom_char(b));
    let wend = crate::parse::span(s, i, |b: u8| is_atom_char(b));
    if i < wend && crate::parse::byte_at(s, wend, 0x20) && crate::parse::byte_at(
        s,
        wend + 1,
        0x28,
    ) {
        lemma_spec_hl_items_advances(s, wend + 2);
    }
}

pub proof fn lemma_spec_section_inner_advances(s: Seq<u8>, i: int)
    requires
        0 <= i <= s.len(),
    ensures
        spec_section_inner(s, i) matches Some((sec, j)) ==> i < j <= s.len(),
{
    lemma_spec_part_numbers_advances(s, i);
    lemma_spec_section_word_advances(s, i, None);
    if i < s.len() && is_digit(s[i]) {
        match spec_part_numbers(s, i) {
            Some((p, j)) => {
                if crate::parse::byte_at(s, j, 0x2e) {
                    lemma_spec_section_word_advances(s, j + 1, Some(p));
                }
            },
            None => {},
        }
    }
}

fn section_inner(input: &[u8], pos: usize) -> (r: Option<(Section, usize)>)
    requires
        pos <= input@.len(),
    ensures
        match spec_section_inner(input@, pos as int) {
            Some((g, j)) => r matches Some((sec, rj)) && section_shape(sec) == g && sec.wf()
                && rj == j && pos < j <= input@.len(),
            None => r is None,
        },
{
    let n = input.len();
    let mut part: Option<Part> = None;
    let mut cur = pos;
    if pos < n && 0x30 <= input[pos] && input[pos] <= 0x39 {
        let (p, j) = match part_numbers(input, pos) {
            Some(q) => q,
            None => {
                return None;
            },
        };
        if !expect_byte(input, j, 0x2e) {
            return Some((Section::Part(p), j));
        }
        part = Some(p);
        cur = j + 1;
    }
    let wend = span_atom(input, cur);
    if wend == cur {
        return None;
    }
    let w_hfn: [u8; 17] = [0x48, 0x45, 0x41, 0x44, 0x45, 0x52, 0x2e, 0x46, 0x49, 0x45, 0x4c, 0x44, 0x53, 0x2e, 0x4e, 0x4f, 0x54];
    proof {
        assert(w_hfn@ =~= pkw_header_fields_not());
    }
    if word_is(input, cur, wend, w_hfn.as_slice()) {
        if !expect_byte(input, wend, 0x20) {
            return None;
        }
        match header_list(input, wend + 1) {
            Some((l, j)) => {
                return Some((Section::HeaderFieldsNot(part, l), j));
            },
            None => {
                return None;
            },
        }
    }
    let w_hf: [u8; 13] = [0x48, 0x45, 0x41, 0x44, 0x45, 0x52, 0x2e, 0x46, 0x49, 0x45, 0x4c, 0x44, 0x53];
    proof {
        assert(w_hf@ =~= pkw_header_fields());
    }
    if word_is(input, cur, wend, w_hf.as_slice()) {
        if !expect_byte(input, wend, 0x20) {
            return None;
        }
        match header_list(input, wend + 1) {
            Some((l, j)) => {
                return Some((Section::HeaderFields(part, l), j));
            },
            None => {
                return None;
            },
        }
    }
    let w_hdr: [u8; 6] = [0x48, 0x45, 0x41, 0x44, 0x45, 0x52];
    proof {
        assert(w_hdr@ =~= pkw_header());
    }
    if word_is(input, cur, wend, w_hdr.as_slice()) {
        return Some((Section::Header(part), wend));
    }
    let w_txt: [u8; 4] = [0x54, 0x45, 0x58, 0x54];
    proof {
        assert(w_txt@ =~= pkw_text());
    }
    if word_is(input, cur, wend, w_txt.as_slice()) {
        return Some((Section::Text(part), wend));
    }
    let w_mime: [u8; 4] = [0x4d, 0x49, 0x4d, 0x45];
    proof {
        assert(w_mime@ =~= pkw_mime());
    }
    if word_is(input, cur, wend, w_mime.as_slice()) {
        match part {
            Some(p) => {
                return Some((Section::Mime(p), wend));
            },
            None => {
                return None;
            },
        }
    }
    None
}

/// The bracketed section and optional `<origin.size>` partial range of a
/// BODY fetch attribute; `i` stands on the opening bracket.
pub open spec fn spec_body_section_suffix(s: Seq<u8>, i: int, peek: bool) -> Option<(
    FetchAttShape,
    int,
)> {
    if !crate::parse::byte_at(s, i, 0x5b) {
        None
    } else {
        let secres = if crate::parse::byte_at(s, i + 1, 0x5d) {
            Some((None::<SectionShape>, i + 2))
        } else {
            match spec_section_inner(s, i + 1) {
                Some((sec, j)) => if crate::parse::byte_at(s, j, 0x5d) {
                    Some((Some(sec), j + 1))
                } else {
                    None
                },
                None => None,
            }
        };
        match secres {
            None => None,
            Some((section, j)) => if crate::parse::byte_at(s, j, 0x3c) {
                match crate::parse::spec_number(s, j + 1) {
                    None => None,
                    Some((a, j2)) => if !crate::parse::byte_at(s, j2, 0x2e) {
                        None
                    } else {
                        match crate::parse::spec_number(s, j2 + 1) {
                            None => None,
                            Some((b, j3)) => if b == 0 {
                                None
                            } else if crate::parse::byte_at(s, j3, 0x3e) {
                                Some(
                                    (
                                        FetchAttShape::BodyExt {
                                            section,
                                            partial: Some((a, b)),
                                            peek,
                                        },
                                        j3 + 1,
                                    ),
                                )
                            } else {
                                None
                            },
                        }
                    },
                }
            } else {
                Some((FetchAttShape::BodyExt { section, partial: None, peek }, j))
            },
        }
    }
}

pub proof fn lemma_spec_bss_advances(s: Seq<u8>, i: int, peek: bool)
    requires
        0 <= i <= s.len(),
    ensures
        spec_body_section_suffix(s, i, peek) matches Some((a, j)) ==> i < j <= s.len(),
{
    if crate::parse::byte_at(s, i, 0x5b) {
        lemma_spec_section_inner_advances(s, i + 1);
    }
    if crate::parse::byte_at(s, i, 0x5b) && !crate::parse::byte_at(s, i + 1, 0x5d) {
        match spec_section_inner(s, i + 1) {
            Some((sec, j)) => {
                if crate::parse::byte_at(s, j, 0x5d) && crate::parse::byte_at(s, j + 1, 0x3c) {
                    crate::parse::lemma_span_props(s, j + 2, |b: u8| is_digit(b));
                }
            },
            None => {},
        }
    }
}

fn body_section_suffix(input: &[u8], pos: usize, peek: bool) -> (r: Option<(
    FetchAttribute,
    usize,
)>)
    requires
        pos <= input@.len(),
    ensures
        match spec_body_section_suffix(input@, pos as int, peek) {
            Some((g, j)) => r matches Some((a, rj)) && fetch_att_shape(a) == g && a.wf() && rj
                == j && pos < j <= input@.len(),
            None => r is None,
        },
{
    let n = input.len();
    if !expect_byte(input, pos, 0x5b) {
        return None;
    }
    let (section, j) = if expect_byte(input, pos + 1, 0x5d) {
        (None, pos + 2)
    } else {
        match section_inner(input, pos + 1) {
            Some((s, j)) => {
                if !expect_byte(input, j, 0x5d) {
                    return None;
                }
                (Some(s), j + 1)
            },
            None => {
                return None;
            },
        }
    };
    if expect_byte(input, j, 0x3c) {
        let (a, j2) = match number(input, j + 1) {
            Some(p) => p,
            None => {
                return None;
            },
        };
        if !expect_byte(input, j2, 0x2e) {
            return None;
        }
        let (b, j3) = match number(input, j2 + 1) {
            Some(p) => p,
            None => {
                return None;
            },
        };
        if b == 0 {
            return None;
        }
        if !expect_byte(input, j3, 0x3e) {
            return None;
        }
        return Some((
            FetchAttribute::BodyExt { section, partial: Some((a, b)), peek },
            j3 + 1,
        ));
    }
    Some((FetchAttribute::BodyExt { section, partial: None, peek }, j))
}

/// A character of a fetch-attribute name: an atom character other than the
/// opening bracket, which introduces a section.
pub open spec fn is_fetch_word_char(b: u8) -> bool {
    is_atom_char(b) && b != 0x5b
}

fn span_fetch_word(input: &[u8], pos: usize) -> (r: usize)
    requires
        pos <= input@.len(),
    ensures
        r == crate::parse::span(input@, pos as int, |b: u8| is_fetch_word_char(b)),
        pos <= r <= input@.len(),
{
    let mut j = pos;
    while j < input.len() && crate::primitive::atom_char(input[j]) && input[j] != 0x5b
        invariant
            pos <= j <= input@.len(),
            forall|k: int| pos <= k < j ==> is_fetch_word_char(#[trigger] input@[k]),
        decreases input@.len() - j,
    {
        j += 1;
    }
    proof {
        crate::parse::lemma_span_eq(input@, pos as int, j as int, |b: u8| is_fetch_word_char(b));
    }
    j
}

/// One fetch attribute.
pub open spec fn spec_fetch_att(s: Seq<u8>, i: int) -> Option<(FetchAttShape, int)> {
    let wend = crate::parse::span(s, i, |b: u8| is_fetch_word_char(b));
    if wend == i {
        None
    } else {
        let w = upper_seq(s.subrange(i, wend));
        if w == pkw_body_peek() {
            spec_body_section_suffix(s, wend, true)
        } else if w == pkw_bodystructure() {
            Some((FetchAttShape::BodyStructure, wend))
        } else if w == pkw_body() {
            if crate::parse::byte_at(s, wend, 0x5b) {
                spec_body_section_suffix(s, wend, false)
            } else {
                Some((FetchAttShape::Body, wend))
            }
        } else if w == pkw_envelope() {
            Some((FetchAttShape::Envelope, wend))
        } else if w == pkw_flags() {
            Some((FetchAttShape::Flags, wend))
        } else if w == pkw_internaldate() {
            Some((FetchAttShape::InternalDate, wend))
        } else if w == pkw_rfc822_header() {
            Some((FetchAttShape::Rfc822Header, wend))
        } else if w == pkw_rfc822_size() {
            Some((FetchAttShape::Rfc822Size, wend))
        } else if w == pkw_rfc822_text() {
            Some((FetchAttShape::Rfc822Text, wend))
        } else if w == pkw_rfc822() {
            Some((FetchAttShape::Rfc822, wend))
        } else if w == pkw_uid() {
            Some((FetchAttShape::Uid, wend))
        } else {
            None
        }
    }
}

pub proof fn lemma_spec_fetch_att_advances(s: Seq<u8>, i: int)
    requires
        0 <= i <= s.len(),
    ensures
        spec_fetch_att(s, i) matches Some((a, j)) ==> i < j <= s.len(),
{
    crate::parse::lemma_span_props(s, i, |b: u8| is_fetch_word_char(b));
    let wend = crate::parse::span(s, i, |b: u8| is_fetch_word_char(b));
    if i < wend {
        lemma_spec_bss_advances(s, wend, true);
        lemma_spec_bss_advances(s, wend, false);
    }
}

fn fetch_att(input: &[u8], pos: usize) -> (r: Option<(FetchAttribute, usize)>)
    requires
        pos <= input@.len(),
    ensures
        match spec_fetch_att(input@, pos as int) {
            Some((g, j)) => r matches Some((a, rj)) && fetch_att_shape(a) == g && a.wf() && rj
                == j && pos < j <= input@.len(),
            None => r is None,
        },
{
    let wend = span_fetch_word(input, pos);
    if wend == pos {
        return None;
    }
    let wa0: [u8; 9] = [0x42, 0x4f, 0x44, 0x59, 0x2e, 0x50, 0x45, 0x45, 0x4b];
    proof {
        assert(wa0@ =~= pkw_body_peek());
    }
    if word_is(input, pos, wend, wa0.as_slice()) {
        return body_section_suffix(input, wend, true);
    }
    let wa1: [u8; 13] = [0x42, 0x4f, 0x44, 0x59, 0x53, 0x54, 0x52, 0x55, 0x43, 0x54, 0x55, 0x52, 0x45];
    proof {
        assert(wa1@ =~= pkw_bodystructure());
    }
    if word_is(input, pos, wend, wa1.as_slice()) {
        return Some((FetchAttribute::BodyStructure, wend));
    }
    let wa2: [u8; 4] = [0x42, 0x4f, 0x44, 0x59];
    proof {
        assert(wa2@ =~= pkw_body());
    }
    if word_is(input, pos, wend, wa2.as_slice()) {
        if expect_byte(input, wend, 0x5b) {
            return body_section_suffix(input, wend, false);
        }
        return Some((FetchAttribute::Body, wend));
    }
    let wa3: [u8; 8] = [0x45, 0x4e, 0x56, 0x45, 0x4c, 0x4f, 0x50, 0x45];
    proof {
        assert(wa3@ =~= pkw_envelope());
    }
    if word_is(input, pos, wend, wa3.as_slice()) {
        return Some((FetchAttribute::Envelope, wend));
    }
    let wa4: [u8; 5] = [0x46, 0x4c, 0x41, 0x47, 0x53];
    proof {
        assert(wa4@ =~= pkw_flags());
    }
    if word_is(input, pos, wend, wa4.as_slice()) {
        return Some((FetchAttribute::Flags, wend));
    }
    let wa5: [u8; 12] = [0x49, 0x4e, 0x54, 0x45, 0x52, 0x4e, 0x41, 0x4c, 0x44, 0x41, 0x54, 0x45];
    proof {
        assert(wa5@ =~= pkw_internaldate());
    }
    if word_is(input, pos, wend, wa5.as_slice()) {
        return Some((FetchAttribute::InternalDate, wend));
    }
    let wa6: [u8; 13] = [0x52, 0x46, 0x43, 0x38, 0x32, 0x32, 0x2e, 0x48, 0x45, 0x41, 0x44, 0x45, 0x52];
    proof {
        assert(wa6@ =~= pkw_rfc822_header());
    }
    if word_is(input, pos, wend, wa6.as_slice()) {
        return Some((FetchAttribute::Rfc822Header, wend));
    }
    let wa7: [u8; 11] = [0x52, 0x46, 0x43, 0x38, 0x32, 0x32, 0x2e, 0x53, 0x49, 0x5a, 0x45];
    proof {
        assert(wa7@ =~= pkw_rfc822_size());
    }
    if word_is(input, pos, wend, wa7.as_slice()) {
        return Some((FetchAttribute::Rfc822Size, wend));
    }
    let wa8: [u8; 11] = [0x52, 0x46, 0x43, 0x38, 0x32, 0x32, 0x2e, 0x54, 0x45, 0x58, 0x54];
    proof {
        assert(wa8@ =~= pkw_rfc822_text());
    }
    if word_is(input, pos, wend, wa8.as_slice()) {
        return Some((FetchAttribute::Rfc822Text, wend));
    }
    let wa9: [u8; 6] = [0x52, 0x46, 0x43, 0x38, 0x32, 0x32];
    proof {
        assert(wa9@ =~= pkw_rfc822());
    }
    if word_is(input, pos, wend, wa9.as_slice()) {
        return Some((FetchAttribute::Rfc822, wend));
    }
    let wa10: [u8; 3] = [0x55, 0x49, 0x44];
    proof {
        assert(wa10@ =~= pkw_uid());
    }
    if word_is(input, pos, wend, wa10.as_slice()) {
        return Some((FetchAttribute::Uid, wend));
    }
    None
}


/// Fetch attributes inside a parenthesized list, up to and including the
/// closing parenthesis.
pub open spec fn spec_fa_items(s: Seq<u8>, i: int) -> Option<(Seq<FetchAttShape>, int)>
    decreases s.len() - i,
    when 0 <= i <= s.len()
    via spec_fa_items_decreases
{
    match spec_fetch_att(s, i) {
        None => None,
        Some((a, j)) => if crate::parse::byte_at(s, j, 0x29) {
            Some((seq![a], j + 1))
        } else if crate::parse::byte_at(s, j, 0x20) {
            match spec_fa_items(s, j + 1) {
                Some((t, k)) => Some((seq![a] + t, k)),
                None => None,
            }
        } else {
            None
        },
    }
}

#[via_fn]
proof fn spec_fa_items_decreases(s: Seq<u8>, i: int) {
    lemma_spec_fetch_att_advances(s, i);
}

/// What a FETCH command asks for: a macro, a single attribute, or a
/// parenthesized attribute list.
pub open spec fn spec_fetch_atts(s: Seq<u8>, i: int) -> Option<(FetchAttsShape, int)> {
    if crate::parse::byte_at(s, i, 0x28) {
        match spec_fa_items(s, i + 1) {
            Some((l, j)) => Some((FetchAttsShape::Atts(l), j)),
            None => None,
        }
    } else {
        let wend = crate::parse::span(s, i, |b: u8| is_atom_char(b));
        if wend == i {
            None
        } else {
            let w = upper_seq(s.subrange(i, wend));
            if w == pkw_all() {
                Some((FetchAttsShape::Macro(Macro::All), wend))
            } else if w == pkw_fast() {
                Some((FetchAttsShape::Macro(Macro::Fast), wend))
            } else if w == pkw_full() {
                Some((FetchAttsShape::Macro(Macro::Full), wend))
            } else {
                match spec_fetch_att(s, i) {
                    Some((a, j)) => Some((FetchAttsShape::Atts(seq![a]), j)),
                    None => None,
                }
            }
        }
    }
}

#[verifier::rlimit(100)]
fn fetch_atts(input: &[u8], pos: usize) -> (r: Option<(MacroOrFetchAttributes, usize)>)
    requires
        pos <= input@.len(),
    ensures
        match spec_fetch_atts(input@, pos as int) {
            Some((g, j)) => r matches Some((a, rj)) && fetch_atts_shape(a) == g && a.wf() && rj
                == j && pos < j <= input@.len(),
            None => r is None,
        },
{
    let n = input.len();
    if expect_byte(input, pos, 0x28) {
        let mut atts: Vec<FetchAttribute> = Vec::new();
        let mut cur = pos + 1;
        proof {
            match spec_fa_items(input@, pos + 1) {
                Some((t, k)) => {
                    assert(fetch_att_shapes(atts@) + t =~= t);
                },
                None => {},
            }
        }
        loop
            invariant
                pos < cur <= n,
                n == input@.len(),
                n <= usize::MAX,
                crate::parse::byte_at(input@, pos as int, 0x28),
                atts@.len() > 0 ==> atts@.len() >= 1,
                forall|i: int| 0 <= i < atts@.len() ==> (#[trigger] atts@[i]).wf(),
                match spec_fa_items(input@, cur as int) {
                    Some((t, k)) => spec_fa_items(input@, pos + 1) matches Some((all, ak)) && all
                        == fetch_att_shapes(atts@) + t && ak == k,
                    None => spec_fa_items(input@, pos + 1) is None,
                },
            decreases n - cur,
        {
            let (a, j) = match fetch_att(input, cur) {
                Some(p) => p,
                None => {
                    return None;
                },
            };
            proof {
                assert(fetch_att_shapes(atts@.push(a)) =~= fetch_att_shapes(atts@).push(
                    fetch_att_shape(a),
                ));
            }
            atts.push(a);
            if expect_byte(input, j, 0x29) {
                proof {
                    assert(fetch_att_shapes(atts@.drop_last()) + seq![fetch_att_shape(a)]
                        =~= fetch_att_shapes(atts@));
                    assert(spec_fa_items(input@, cur as int) == Some::<(Seq<FetchAttShape>, int)>(
                        (seq![fetch_att_shape(a)], j + 1),
                    ));
                    assert(atts@.len() > 0);
                    assert(forall|i: int| 0 <= i < atts@.len() ==> (#[trigger] atts@[i]).wf());
                    assert(spec_fa_items(input@, pos + 1) == Some::<(Seq<FetchAttShape>, int)>(
                        (fetch_att_shapes(atts@), j + 1),
                    ));
                    assert(crate::parse::byte_at(input@, pos as int, 0x28));
                    assert(spec_fetch_atts(input@, pos as int) matches Some((g, ak)) && g
                        == FetchAttsShape::Atts(fetch_att_shapes(atts@)) && ak == j + 1);
                }
                return Some((MacroOrFetchAttributes::FetchAttributes(atts), j + 1));
            }
            if !expect_byte(input, j, 0x20) {
                return None;
            }
            proof {
                match spec_fa_items(input@, j + 1) {
                    Some((t, k)) => {
                        assert(fetch_att_shapes(atts@.drop_last()) + (seq![fetch_att_shape(a)] + t)
                            =~= fetch_att_shapes(atts@) + t);
                    },
                    None => {},
                }
            }
            cur = j + 1;
        }
    }
    let wend = span_atom(input, pos);
    if wend == pos {
        return None;
    }
    let wm1: [u8; 3] = [0x41, 0x4c, 0x4c];
    proof {
        assert(wm1@ =~= pkw_all());
    }
    if word_is(input, pos, wend, wm1.as_slice()) {
        return Some((MacroOrFetchAttributes::Macro(Macro::All), wend));
    }
    let wm2: [u8; 4] = [0x46, 0x41, 0x53, 0x54];
    proof {
        assert(wm2@ =~= pkw_fast());
    }
    if word_is(input, pos, wend, wm2.as_slice()) {
        return Some((MacroOrFetchAttributes::Macro(Macro::Fast), wend));
    }
    let wm3: [u8; 4] = [0x46, 0x55, 0x4c, 0x4c];
    proof {
        assert(wm3@ =~= pkw_full());
    }
    if word_is(input, pos, wend, wm3.as_slice()) {
        return Some((MacroOrFetchAttributes::Macro(Macro::Full), wend));
    }
    match fetch_att(input, pos) {
        Some((a, j)) => {
            let mut atts: Vec<FetchAttribute> = Vec::new();
            proof {
                assert(fetch_att_shapes(atts@.push(a)) =~= seq![fetch_att_shape(a)]);
            }
            atts.push(a);
            Some((MacroOrFetchAttributes::FetchAttributes(atts), j))
        },
        None => None,
    }
}


// --------------------------------------------------------------------------
// Search keys
// --------------------------------------------------------------------------

/// The specification-level form of a search key.  `Not` holds exactly one
/// child and `Or` exactly two; sequences carry the recursion.
pub ghost enum SearchKeyShape {
    And(Seq<SearchKeyShape>),
    SequenceSet(Seq<crate::sequence::Sequence>),
    All,
    Answered,
    Bcc(crate::parse::AStringShape),
    Before(Date),
    Body(crate::parse::AStringShape),
    Cc(crate::parse::AStringShape),
    Deleted,
    Draft,
    Flagged,
    From(crate::parse::AStringShape),
    Header(crate::parse::AStringShape, crate::parse::AStringShape),
    Keyword(Seq<u8>),
    Larger(u32),
    New,
    Not(Seq<SearchKeyShape>),
    Old,
    On(Date),
    Or(Seq<SearchKeyShape>),
    Recent,
    Seen,
    SentBefore(Date),
    SentOn(Date),
    SentSince(Date),
    Since(Date),
    Smaller(u32),
    Subject(crate::parse::AStringShape),
    Text(crate::parse::AStringShape),
    To(crate::parse::AStringShape),
    Uid(Seq<crate::sequence::Sequence>),
    Unanswered,
    Undeleted,
    Undraft,
    Unflagged,
    Unkeyword(Seq<u8>),
    Unseen,
}

pub open spec fn search_key_shape(k: SearchKey) -> SearchKeyShape
    decreases k,
    via search_key_shape_decreases
{
    match k {
        SearchKey::And(keys) => SearchKeyShape::And(search_key_shapes(keys@)),
        SearchKey::SequenceSet(ss) => SearchKeyShape::SequenceSet(ss@),
        SearchKey::All => SearchKeyShape::All,
        SearchKey::Answered => SearchKeyShape::Answered,
        SearchKey::Bcc(a) => SearchKeyShape::Bcc(crate::parse::astring_shape(a)),
        SearchKey::Before(d) => SearchKeyShape::Before(d),
        SearchKey::Body(a) => SearchKeyShape::Body(crate::parse::astring_shape(a)),
        SearchKey::Cc(a) => SearchKeyShape::Cc(crate::parse::astring_shape(a)),
        SearchKey::Deleted => SearchKeyShape::Deleted,
        SearchKey::Draft => SearchKeyShape::Draft,
        SearchKey::Flagged => SearchKeyShape::Flagged,
        SearchKey::From(a) => SearchKeyShape::From(crate::parse::astring_shape(a)),
        SearchKey::Header(f, v) => SearchKeyShape::Header(
            crate::parse::astring_shape(f),
            crate::parse::astring_shape(v),
        ),
        SearchKey::Keyword(a) => SearchKeyShape::Keyword(a@),
        SearchKey::Larger(n) => SearchKeyShape::Larger(n),
        SearchKey::New => SearchKeyShape::New,
        SearchKey::Not(k1) => SearchKeyShape::Not(seq![search_key_shape(*k1)]),
        SearchKey::Old => SearchKeyShape::Old,
        SearchKey::On(d) => SearchKeyShape::On(d),
        SearchKey::Or(k1, k2) => SearchKeyShape::Or(
            seq![search_key_shape(*k1), search_key_shape(*k2)],
        ),
        SearchKey::Recent => SearchKeyShape::Recent,
        SearchKey::Seen => SearchKeyShape::Seen,
        SearchKey::SentBefore(d) => SearchKeyShape::SentBefore(d),
        SearchKey::SentOn(d) => SearchKeyShape::SentOn(d),
        SearchKey::SentSince(d) => SearchKeyShape::SentSince(d),
        SearchKey::Since(d) => SearchKeyShape::Since(d),
        SearchKey::Smaller(n) => SearchKeyShape::Smaller(n),
        SearchKey::Subject(a) => SearchKeyShape::Subject(crate::parse::astring_shape(a)),
        SearchKey::Text(a) => SearchKeyShape::Text(crate::parse::astring_shape(a)),
        SearchKey::To(a) => SearchKeyShape::To(crate::parse::astring_shape(a)),
        SearchKey::Uid(ss) => SearchKeyShape::Uid(ss@),
        SearchKey::Unanswered => SearchKeyShape::Unanswered,
        SearchKey::Undeleted => SearchKeyShape::Undeleted,
        SearchKey::Undraft => SearchKeyShape::Undraft,
        SearchKey::Unflagged => SearchKeyShape::Unflagged,
        SearchKey::Unkeyword(a) => SearchKeyShape::Unkeyword(a@),
        SearchKey::Unseen => SearchKeyShape::Unseen,
    }
}

#[via_fn]
proof fn search_key_shape_decreases(k: SearchKey) {
    match k {
        SearchKey::And(keys) => crate::primitive::lemma_nev_decreases(keys),
        _ => {},
    }
}

pub open spec fn search_key_shapes(l: Seq<SearchKey>) -> Seq<SearchKeyShape>
    decreases l,
{
    if l.len() == 0 {
        Seq::empty()
    } else {
        seq![search_key_shape(l[0])] + search_key_shapes(l.drop_first())
    }
}

/// A key list and its shape list have the same length.
pub proof fn lemma_search_key_shapes_len(l: Seq<SearchKey>)
    ensures
        search_key_shapes(l).len() == l.len(),
    decreases l,
{
    if l.len() > 0 {
        lemma_search_key_shapes_len(l.drop_first());
    }
}

/// Appending one more key appends its shape.
pub proof fn lemma_search_key_shapes_push(l: Seq<SearchKey>, x: SearchKey)
    ensures
        search_key_shapes(l.push(x)) == search_key_shapes(l) + seq![search_key_shape(x)],
    decreases l,
{
    let w = l.push(x);
    if l.len() == 0 {
        assert(w[0] == x);
        assert(w.drop_first() =~= Seq::<SearchKey>::empty());
        assert(search_key_shapes(Seq::<SearchKey>::empty()) == Seq::<SearchKeyShape>::empty());
        assert(seq![search_key_shape(x)] + Seq::<SearchKeyShape>::empty() =~= Seq::<
            SearchKeyShape,
        >::empty() + seq![search_key_shape(x)]);
    } else {
        lemma_search_key_shapes_push(l.drop_first(), x);
        assert(w.drop_first() =~= l.drop_first().push(x));
        assert(w[0] == l[0]);
        assert(seq![search_key_shape(l[0])] + (search_key_shapes(l.drop_first()) + seq![
            search_key_shape(x),
        ]) =~= (seq![search_key_shape(l[0])] + search_key_shapes(l.drop_first())) + seq![
            search_key_shape(x),
        ]);
    }
}


/// One search key; a parenthesized list is a conjunction.
pub open spec fn spec_search_key(s: Seq<u8>, i: int) -> Option<(SearchKeyShape, int)>
    decreases s.len() - i, 0int,
    when 0 <= i <= s.len()
    via spec_search_key_decreases
{
    if crate::parse::byte_at(s, i, 0x28) {
        match spec_sk_list(s, i + 1) {
            Some((keys, j)) => Some((SearchKeyShape::And(keys), j)),
            None => None,
        }
    } else if i < s.len() && (s[i] == 0x2a || is_digit(s[i])) {
        match crate::sequence::spec_sequence_set(s, i) {
            Some((ss, j)) => Some((SearchKeyShape::SequenceSet(ss), j)),
            None => None,
        }
    } else {
        let wend = crate::parse::span(s, i, |b: u8| is_atom_char(b));
        if wend == i {
            None
        } else {
            let w = upper_seq(s.subrange(i, wend));
            if w == pkw_all() {
                Some((SearchKeyShape::All, wend))
            } else if w == pkw_answered() {
                Some((SearchKeyShape::Answered, wend))
            } else if w == pkw_deleted() {
                Some((SearchKeyShape::Deleted, wend))
            } else if w == pkw_draft() {
                Some((SearchKeyShape::Draft, wend))
            } else if w == pkw_flagged() {
                Some((SearchKeyShape::Flagged, wend))
            } else if w == pkw_new() {
                Some((SearchKeyShape::New, wend))
            } else if w == pkw_old() {
                Some((SearchKeyShape::Old, wend))
            } else if w == pkw_recent() {
                Some((SearchKeyShape::Recent, wend))
            } else if w == pkw_seen() {
                Some((SearchKeyShape::Seen, wend))
            } else if w == pkw_unanswered() {
                Some((SearchKeyShape::Unanswered, wend))
            } else if w == pkw_undeleted() {
                Some((SearchKeyShape::Undeleted, wend))
            } else if w == pkw_undraft() {
                Some((SearchKeyShape::Undraft, wend))
            } else if w == pkw_unflagged() {
                Some((SearchKeyShape::Unflagged, wend))
            } else if w == pkw_unseen() {
                Some((SearchKeyShape::Unseen, wend))
            } else if w == pkw_bcc() {
                if crate::parse::byte_at(s, wend, 0x20) {
                    match crate::parse::spec_astring(s, wend + 1) {
                        Some((a, j)) => Some((SearchKeyShape::Bcc(a), j)),
                        None => None,
                    }
                } else {
                    None
                }
            } else if w == pkw_body() {
                if crate::parse::byte_at(s, wend, 0x20) {
                    match crate::parse::spec_astring(s, wend + 1) {
                        Some((a, j)) => Some((SearchKeyShape::Body(a), j)),
                        None => None,
                    }
                } else {
                    None
                }
            } else if w == pkw_cc() {
                if crate::parse::byte_at(s, wend, 0x20) {
                    match crate::parse::spec_astring(s, wend + 1) {
                        Some((a, j)) => Some((SearchKeyShape::Cc(a), j)),
                        None => None,
                    }
                } else {
                    None
                }
            } else if w == pkw_from() {
                if crate::parse::byte_at(s, wend, 0x20) {
                    match crate::parse::spec_astring(s, wend + 1) {
                        Some((a, j)) => Some((SearchKeyShape::From(a), j)),
                        None => None,
                    }
                } else {
                    None
                }
            } else if w == pkw_subject() {
                if crate::parse::byte_at(s, wend, 0x20) {
                    match crate::parse::spec_astring(s, wend + 1) {
                        Some((a, j)) => Some((SearchKeyShape::Subject(a), j)),
                        None => None,
                    }
                } else {
                    None
                }
            } else if w == pkw_text() {
                if crate::parse::byte_at(s, wend, 0x20) {
                    match crate::parse::spec_astring(s, wend + 1) {
                        Some((a, j)) => Some((SearchKeyShape::Text(a), j)),
                        None => None,
                    }
                } else {
                    None
                }
            } else if w == pkw_to() {
                if crate::parse::byte_at(s, wend, 0x20) {
                    match crate::parse::spec_astring(s, wend + 1) {
                        Some((a, j)) => Some((SearchKeyShape::To(a), j)),
                        None => None,
                    }
                } else {
                    None
                }
            } else if w == pkw_before() {
                if crate::parse::byte_at(s, wend, 0x20) {
                    match spec_date(s, wend + 1) {
                        Some((d, j)) => Some((SearchKeyShape::Before(d), j)),
                        None => None,
                    }
                } else {
                    None
                }
            } else if w == pkw_on() {
                if crate::parse::byte_at(s, wend, 0x20) {
                    match spec_date(s, wend + 1) {
                        Some((d, j)) => Some((SearchKeyShape::On(d), j)),
                        None => None,
                    }
                } else {
                    None
                }
            } else if w == pkw_sentbefore() {
                if crate::parse::byte_at(s, wend, 0x20) {
                    match spec_date(s, wend + 1) {
                        Some((d, j)) => Some((SearchKeyShape::SentBefore(d), j)),
                        None => None,
                    }
                } else {
                    None
                }
            } else if w == pkw_senton() {
                if crate::parse::byte_at(s, wend, 0x20) {
                    match spec_date(s, wend + 1) {
                        Some((d, j)) => Some((SearchKeyShape::SentOn(d), j)),
                        None => None,
                    }
                } else {
                    None
                }
            } else if w == pkw_sentsince() {
                if crate::parse::byte_at(s, wend, 0x20) {
                    match spec_date(s, wend + 1) {
                        Some((d, j)) => Some((SearchKeyShape::SentSince(d), j)),
                        None => None,
                    }
                } else {
                    None
                }
            } else if w == pkw_since() {
                if crate::parse::byte_at(s, wend, 0x20) {
                    match spec_date(s, wend + 1) {
                        Some((d, j)) => Some((SearchKeyShape::Since(d), j)),
                        None => None,
                    }
                } else {
                    None
                }
            } else if w == pkw_keyword() {
                if crate::parse::byte_at(s, wend, 0x20) {
                    match crate::parse::spec_atom(s, wend + 1) {
                        Some((c, j)) => Some((SearchKeyShape::Keyword(c), j)),
                        None => None,
                    }
                } else {
                    None
                }
            } else if w == pkw_unkeyword() {
                if crate::parse::byte_at(s, wend, 0x20) {
                    match crate::parse::spec_atom(s, wend + 1) {
                        Some((c, j)) => Some((SearchKeyShape::Unkeyword(c), j)),
                        None => None,
                    }
                } else {
                    None
                }
            } else if w == pkw_larger() {
                if crate::parse::byte_at(s, wend, 0x20) {
                    match crate::parse::spec_number(s, wend + 1) {
                        Some((v, j)) => Some((SearchKeyShape::Larger(v), j)),
                        None => None,
                    }
                } else {
                    None
                }
            } else if w == pkw_smaller() {
                if crate::parse::byte_at(s, wend, 0x20) {
                    match crate::parse::spec_number(s, wend + 1) {
                        Some((v, j)) => Some((SearchKeyShape::Smaller(v), j)),
                        None => None,
                    }
                } else {
                    None
                }
            } else if w == pkw_header() {
                if crate::parse::byte_at(s, wend, 0x20) {
                    match crate::parse::spec_astring(s, wend + 1) {
                        Some((f, j)) => if crate::parse::byte_at(s, j, 0x20) {
                            match crate::parse::spec_astring(s, j + 1) {
                                Some((v, j2)) => Some((SearchKeyShape::Header(f, v), j2)),
                                None => None,
                            }
                        } else {
                            None
                        },
                        None => None,
                    }
                } else {
                    None
                }
            } else if w == pkw_not() {
                if crate::parse::byte_at(s, wend, 0x20) {
                    match spec_search_key(s, wend + 1) {
                        Some((k, j)) => Some((SearchKeyShape::Not(seq![k]), j)),
                        None => None,
                    }
                } else {
                    None
                }
            } else if w == pkw_or() {
                if crate::parse::byte_at(s, wend, 0x20) {
                    match spec_search_key(s, wend + 1) {
                        Some((k1, j)) => if j <= wend || j >= s.len() {
                            None
                        } else if crate::parse::byte_at(s, j, 0x20) {
                            match spec_search_key(s, j + 1) {
                                Some((k2, j2)) => Some((SearchKeyShape::Or(seq![k1, k2]), j2)),
                                None => None,
                            }
                        } else {
                            None
                        },
                        None => None,
                    }
                } else {
                    None
                }
            } else if w == pkw_uid() {
                if crate::parse::byte_at(s, wend, 0x20) {
                    match crate::sequence::spec_sequence_set(s, wend + 1) {
                        Some((ss, j)) => Some((SearchKeyShape::Uid(ss), j)),
                        None => None,
                    }
                } else {
                    None
                }
            } else {
                None
            }
        }
    }
}

/// Keys of a parenthesized conjunction, up to and including the closing
/// parenthesis.
pub open spec fn spec_sk_list(s: Seq<u8>, i: int) -> Option<(Seq<SearchKeyShape>, int)>
    decreases s.len() - i, 1int,
    when 0 <= i <= s.len()
    via spec_sk_list_decreases
{
    match spec_search_key(s, i) {
        None => None,
        Some((k, j)) => if j <= i || j > s.len() {
            None
        } else if crate::parse::byte_at(s, j, 0x29) {
            Some((seq![k], j + 1))
        } else if crate::parse::byte_at(s, j, 0x20) {
            match spec_sk_list(s, j + 1) {
                Some((t, e)) => Some((seq![k] + t, e)),
                None => None,
            }
        } else {
            None
        },
    }
}

#[via_fn]
proof fn spec_search_key_decreases(s: Seq<u8>, i: int) {
    crate::parse::lemma_span_props(s, i, |b: u8| is_atom_char(b));
}

#[via_fn]
proof fn spec_sk_list_decreases(s: Seq<u8>, i: int) {
}

/// The keys of a parenthesized conjunction, up to and including the
/// closing parenthesis.
fn search_key_list(input: &[u8], pos: usize) -> (r: Option<(Vec<SearchKey>, usize)>)
    requires
        pos <= input@.len(),
    ensures
        match spec_sk_list(input@, pos as int) {
            Some((g, j)) => r matches Some((ks, rj)) && search_key_shapes(ks@) == g && rj == j
                && pos < j <= input@.len() && ks@.len() > 0 && forall|i: int|
                0 <= i < ks@.len() ==> (#[trigger] ks@[i]).wf(),
            None => r is None,
        },
    decreases input@.len() - pos, 1int,
{
    let n = input.len();
    let (k, j) = match search_key(input, pos) {
        Some(p) => p,
        None => {
            return None;
        },
    };
    if expect_byte(input, j, 0x29) {
        let mut ks: Vec<SearchKey> = Vec::new();
        ks.push(k);
        proof {
            assert(ks@.drop_first() =~= Seq::<SearchKey>::empty());
            assert(search_key_shapes(Seq::<SearchKey>::empty()) == Seq::<SearchKeyShape>::empty());
            assert(search_key_shapes(ks@) =~= seq![search_key_shape(k)]);
        }
        return Some((ks, j + 1));
    }
    if !expect_byte(input, j, 0x20) {
        return None;
    }
    let (mut tail, e) = match search_key_list(input, j + 1) {
        Some(p) => p,
        None => {
            return None;
        },
    };
    proof {
        assert(tail@.insert(0, k) =~= seq![k] + tail@);
        assert((seq![k] + tail@).drop_first() =~= tail@);
        assert(search_key_shapes(seq![k] + tail@) == seq![search_key_shape(k)]
            + search_key_shapes(tail@));
    }
    tail.insert(0, k);
    Some((tail, e))
}

#[verifier::rlimit(100)]
#[verifier::spinoff_prover]
fn search_key(input: &[u8], pos: usize) -> (r: Option<(SearchKey, usize)>)
    requires
        pos <= input@.len(),
    ensures
        match spec_search_key(input@, pos as int) {
            Some((g, j)) => r matches Some((k, rj)) && search_key_shape(k) == g && k.wf() && rj
                == j && pos < j <= input@.len(),
            None => r is None,
        },
    decreases input@.len() - pos, 0int,
{
    let n = input.len();
    if expect_byte(input, pos, 0x28) {
        match search_key_list(input, pos + 1) {
            Some((ks, j)) => {
                match NonEmptyVec::new(ks) {
                    Ok(nev) => {
                        proof {
                            crate::command::lemma_search_keys_wf(nev@);
                        }
                        return Some((SearchKey::And(nev), j));
                    },
                    Err(_) => {
                        return None;
                    },
                }
            },
            None => {
                return None;
            },
        }
    }
    if pos < n && (input[pos] == 0x2a || (0x30 <= input[pos] && input[pos] <= 0x39)) {
        match sequence_set(input, pos) {
            Some((s, j)) => {
                return Some((SearchKey::SequenceSet(s), j));
            },
            None => {
                return None;
            },
        }
    }
    let wend = span_atom(input, pos);
    if wend == pos {
        return None;
    }
    let sk1: [u8; 3] = [0x41, 0x4c, 0x4c];
    proof {
        assert(sk1@ =~= pkw_all());
    }
    if word_is(input, pos, wend, sk1.as_slice()) {
        return Some((SearchKey::All, wend));
    }
    let sk2: [u8; 8] = [0x41, 0x4e, 0x53, 0x57, 0x45, 0x52, 0x45, 0x44];
    proof {
        assert(sk2@ =~= pkw_answered());
    }
    if word_is(input, pos, wend, sk2.as_slice()) {
        return Some((SearchKey::Answered, wend));
    }
    let sk3: [u8; 7] = [0x44, 0x45, 0x4c, 0x45, 0x54, 0x45, 0x44];
    proof {
        assert(sk3@ =~= pkw_deleted());
    }
    if word_is(input, pos, wend, sk3.as_slice()) {
        return Some((SearchKey::Deleted, wend));
    }
    let sk4: [u8; 5] = [0x44, 0x52, 0x41, 0x46, 0x54];
    proof {
        assert(sk4@ =~= pkw_draft());
    }
    if word_is(input, pos, wend, sk4.as_slice()) {
        return Some((SearchKey::Draft, wend));
    }
    let sk5: [u8; 7] = [0x46, 0x4c, 0x41, 0x47, 0x47, 0x45, 0x44];
    proof {
        assert(sk5@ =~= pkw_flagged());
    }
    if word_is(input, pos, wend, sk5.as_slice()) {
        return Some((SearchKey::Flagged, wend));
    }
    let sk6: [u8; 3] = [0x4e, 0x45, 0x57];
    proof {
        assert(sk6@ =~= pkw_new());
    }
    if word_is(input, pos, wend, sk6.as_slice()) {
        return Some((SearchKey::New, wend));
    }
    let sk7: [u8; 3] = [0x4f, 0x4c, 0x44];
    proof {
        assert(sk7@ =~= pkw_old());
    }
    if word_is(input, pos, wend, sk7.as_slice()) {
        return Some((SearchKey::Old, wend));
    }
    let sk8: [u8; 6] = [0x52, 0x45, 0x43, 0x45, 0x4e, 0x54];
    proof {
        assert(sk8@ =~= pkw_recent());
    }
    if word_is(input, pos, wend, sk8.as_slice()) {
        return Some((SearchKey::Recent, wend));
    }
    let sk9: [u8; 4] = [0x53, 0x45, 0x45, 0x4e];
    proof {
        assert(sk9@ =~= pkw_seen());
    }
    if word_is(input, pos, wend, sk9.as_slice()) {
        return Some((SearchKey::Seen, wend));
    }
    let sk10: [u8; 10] = [0x55, 0x4e, 0x41, 0x4e, 0x53, 0x57, 0x45, 0x52, 0x45, 0x44];
    proof {
        assert(sk10@ =~= pkw_unanswered());
    }
    if word_is(input, pos, wend, sk10.as_slice()) {
        return Some((SearchKey::Unanswered, wend));
    }
    let sk11: [u8; 9] = [0x55, 0x4e, 0x44, 0x45, 0x4c, 0x45, 0x54, 0x45, 0x44];
    proof {
        assert(sk11@ =~= pkw_undeleted());
    }
    if word_is(input, pos, wend, sk11.as_slice()) {
        return Some((SearchKey::Undeleted, wend));
    }
    let sk12: [u8; 7] = [0x55, 0x4e, 0x44, 0x52, 0x41, 0x46, 0x54];
    proof {
        assert(sk12@ =~= pkw_undraft());
    }
    if word_is(input, pos, wend, sk12.as_slice()) {
        return Some((SearchKey::Undraft, wend));
    }
    let sk13: [u8; 9] = [0x55, 0x4e, 0x46, 0x4c, 0x41, 0x47, 0x47, 0x45, 0x44];
    proof {
        assert(sk13@ =~= pkw_unflagged());
    }
    if word_is(input, pos, wend, sk13.as_slice()) {
        return Some((SearchKey::Unflagged, wend));
    }
    let sk14: [u8; 6] = [0x55, 0x4e, 0x53, 0x45, 0x45, 0x4e];
    proof {
        assert(sk14@ =~= pkw_unseen());
    }
    if word_is(input, pos, wend, sk14.as_slice()) {
        return Some((SearchKey::Unseen, wend));
    }
    let sk15: [u8; 3] = [0x42, 0x43, 0x43];
    proof {
        assert(sk15@ =~= pkw_bcc());
    }
    if word_is(input, pos, wend, sk15.as_slice()) {
        if !expect_byte(input, wend, 0x20) {
            return None;
        }
        match astring(input, wend + 1) {
            Some((a, j)) => {
                return Some((SearchKey::Bcc(a), j));
            },
            None => {
                return None;
            },
        }
    }
    let sk16: [u8; 4] = [0x42, 0x4f, 0x44, 0x59];
    proof {
        assert(sk16@ =~= pkw_body());
    }
    if word_is(input, pos, wend, sk16.as_slice()) {
        if !expect_byte(input, wend, 0x20) {
            return None;
        }
        match astring(input, wend + 1) {
            Some((a, j)) => {
                return Some((SearchKey::Body(a), j));
            },
            None => {
                return None;
            },
        }
    }
    let sk17: [u8; 2] = [0x43, 0x43];
    proof {
        assert(sk17@ =~= pkw_cc());
    }
    if word_is(input, pos, wend, sk17.as_slice()) {
        if !expect_byte(input, wend, 0x20) {
            return None;
        }
        match astring(input, wend + 1) {
            Some((a, j)) => {
                return Some((SearchKey::Cc(a), j));
            },
            None => {
                return None;
            },
        }
    }
    let sk18: [u8; 4] = [0x46, 0x52, 0x4f, 0x4d];
    proof {
        assert(sk18@ =~= pkw_from());
    }
    if word_is(input, pos, wend, sk18.as_slice()) {
        if !expect_byte(input, wend, 0x20) {
            return None;
        }
        match astring(input, wend + 1) {
            Some((a, j)) => {
                return Some((SearchKey::From(a), j));
            },
            None => {
                return None;
            },
        }
    }
    let sk19: [u8; 7] = [0x53, 0x55, 0x42, 0x4a, 0x45, 0x43, 0x54];
    proof {
        assert(sk19@ =~= pkw_subject());
    }
    if word_is(input, pos, wend, sk19.as_slice()) {
        if !expect_byte(input, wend, 0x20) {
            return None;
        }
        match astring(input, wend + 1) {
            Some((a, j)) => {
                return Some((SearchKey::Subject(a), j));
            },
            None => {
                return None;
            },
        }
    }
    let sk20: [u8; 4] = [0x54, 0x45, 0x58, 0x54];
    proof {
        assert(sk20@ =~= pkw_text());
    }
    if word_is(input, pos, wend, sk20.as_slice()) {
        if !expect_byte(input, wend, 0x20) {
            return None;
        }
        match astring(input, wend + 1) {
            Some((a, j)) => {
                return Some((SearchKey::Text(a), j));
            },
            None => {
                return None;
            },
        }
    }
    let sk21: [u8; 2] = [0x54, 0x4f];
    proof {
        assert(sk21@ =~= pkw_to());
    }
    if word_is(input, pos, wend, sk21.as_slice()) {
        if !expect_byte(input, wend, 0x20) {
            return None;
        }
        match astring(input, wend + 1) {
            Some((a, j)) => {
                return Some((SearchKey::To(a), j));
            },
            None => {
                return None;
            },
        }
    }
    let sk22: [u8; 6] = [0x42, 0x45, 0x46, 0x4f, 0x52, 0x45];
    proof {
        assert(sk22@ =~= pkw_before());
    }
    if word_is(input, pos, wend, sk22.as_slice()) {
        if !expect_byte(input, wend, 0x20) {
            return None;
        }
        match date(input, wend + 1) {
            Some((d, j)) => {
                return Some((SearchKey::Before(d), j));
            },
            None => {
                return None;
            },
        }
    }
    let sk23: [u8; 2] = [0x4f, 0x4e];
    proof {
        assert(sk23@ =~= pkw_on());
    }
    if word_is(input, pos, wend, sk23.as_slice()) {
        if !expect_byte(input, wend, 0x20) {
            return None;
        }
        match date(input, wend + 1) {
            Some((d, j)) => {
                return Some((SearchKey::On(d), j));
            },
            None => {
                return None;
            },
        }
    }
    let sk24: [u8; 10] = [0x53, 0x45, 0x4e, 0x54, 0x42, 0x45, 0x46, 0x4f, 0x52, 0x45];
    proof {
        assert(sk24@ =~= pkw_sentbefore());
    }
    if word_is(input, pos, wend, sk24.as_slice()) {
        if !expect_byte(input, wend, 0x20) {
            return None;
        }
        match date(input, wend + 1) {
            Some((d, j)) => {
                return Some((SearchKey::SentBefore(d), j));
            },
            None => {
                return None;
            },
        }
    }
    let sk25: [u8; 6] = [0x53, 0x45, 0x4e, 0x54, 0x4f, 0x4e];
    proof {
        assert(sk25@ =~= pkw_senton());
    }
    if word_is(input, pos, wend, sk25.as_slice()) {
        if !expect_byte(input, wend, 0x20) {
            return None;
        }
        match date(input, wend + 1) {
            Some((d, j)) => {
                return Some((SearchKey::SentOn(d), j));
            },
            None => {
                return None;
            },
        }
    }
    let sk26: [u8; 9] = [0x53, 0x45, 0x4e, 0x54, 0x53, 0x49, 0x4e, 0x43, 0x45];
    proof {
        assert(sk26@ =~= pkw_sentsince());
    }
    if word_is(input, pos, wend, sk26.as_slice()) {
        if !expect_byte(input, wend, 0x20) {
            return None;
        }
        match date(input, wend + 1) {
            Some((d, j)) => {
                return Some((SearchKey::SentSince(d), j));
            },
            None => {
                return None;
            },
        }
    }
    let sk27: [u8; 5] = [0x53, 0x49, 0x4e, 0x43, 0x45];
    proof {
        assert(sk27@ =~= pkw_since());
    }
    if word_is(input, pos, wend, sk27.as_slice()) {
        if !expect_byte(input, wend, 0x20) {
            return None;
        }
        match date(input, wend + 1) {
            Some((d, j)) => {
                return Some((SearchKey::Since(d), j));
            },
            None => {
                return None;
            },
        }
    }
    let sk28: [u8; 7] = [0x4b, 0x45, 0x59, 0x57, 0x4f, 0x52, 0x44];
    proof {
        assert(sk28@ =~= pkw_keyword());
    }
    if word_is(input, pos, wend, sk28.as_slice()) {
        if !expect_byte(input, wend, 0x20) {
            return None;
        }
        match crate::parse::atom(input, wend + 1) {
            Some((a, j)) => {
                return Some((SearchKey::Keyword(a), j));
            },
            None => {
                return None;
            },
        }
    }
    let sk29: [u8; 9] = [0x55, 0x4e, 0x4b, 0x45, 0x59, 0x57, 0x4f, 0x52, 0x44];
    proof {
        assert(sk29@ =~= pkw_unkeyword());
    }
    if word_is(input, pos, wend, sk29.as_slice()) {
        if !expect_byte(input, wend, 0x20) {
            return None;
        }
        match crate::parse::atom(input, wend + 1) {
            Some((a, j)) => {
                return Some((SearchKey::Unkeyword(a), j));
            },
            None => {
                return None;
            },
        }
    }
    let sk30: [u8; 6] = [0x4c, 0x41, 0x52, 0x47, 0x45, 0x52];
    proof {
        assert(sk30@ =~= pkw_larger());
    }
    if word_is(input, pos, wend, sk30.as_slice()) {
        if !expect_byte(input, wend, 0x20) {
            return None;
        }
        match number(input, wend + 1) {
            Some((v, j)) => {
                return Some((SearchKey::Larger(v), j));
            },
            None => {
                return None;
            },
        }
    }
    let sk31: [u8; 7] = [0x53, 0x4d, 0x41, 0x4c, 0x4c, 0x45, 0x52];
    proof {
        assert(sk31@ =~= pkw_smaller());
    }
    if word_is(input, pos, wend, sk31.as_slice()) {
        if !expect_byte(input, wend, 0x20) {
            return None;
        }
        match number(input, wend + 1) {
            Some((v, j)) => {
                return Some((SearchKey::Smaller(v), j));
            },
            None => {
                return None;
            },
        }
    }
    let sk_hdr: [u8; 6] = [0x48, 0x45, 0x41, 0x44, 0x45, 0x52];
    proof {
        assert(sk_hdr@ =~= pkw_header());
    }
    if word_is(input, pos, wend, sk_hdr.as_slice()) {
        if !expect_byte(input, wend, 0x20) {
            return None;
        }
        let (f, j) = match astring(input, wend + 1) {
            Some(p) => p,
            None => {
                return None;
            },
        };
        if !expect_byte(input, j, 0x20) {
            return None;
        }
        match astring(input, j + 1) {
            Some((v, j2)) => {
                return Some((SearchKey::Header(f, v), j2));
            },
            None => {
                return None;
            },
        }
    }
    let sk_not: [u8; 3] = [0x4e, 0x4f, 0x54];
    proof {
        assert(sk_not@ =~= pkw_not());
    }
    if word_is(input, pos, wend, sk_not.as_slice()) {
        if !expect_byte(input, wend, 0x20) {
            return None;
        }
        match search_key(input, wend + 1) {
            Some((k, j)) => {
                return Some((SearchKey::Not(Box::new(k)), j));
            },
            None => {
                return None;
            },
        }
    }
    let sk_or: [u8; 2] = [0x4f, 0x52];
    proof {
        assert(sk_or@ =~= pkw_or());
    }
    if word_is(input, pos, wend, sk_or.as_slice()) {
        if !expect_byte(input, wend, 0x20) {
            return None;
        }
        let (k1, j) = match search_key(input, wend + 1) {
            Some(p) => p,
            None => {
                return None;
            },
        };
        if !expect_byte(input, j, 0x20) {
            return None;
        }
        match search_key(input, j + 1) {
            Some((k2, j2)) => {
                return Some((SearchKey::Or(Box::new(k1), Box::new(k2)), j2));
            },
            None => {
                return None;
            },
        }
    }
    let sk_uid: [u8; 3] = [0x55, 0x49, 0x44];
    proof {
        assert(sk_uid@ =~= pkw_uid());
    }
    if word_is(input, pos, wend, sk_uid.as_slice()) {
        if !expect_byte(input, wend, 0x20) {
            return None;
        }
        match sequence_set(input, wend + 1) {
            Some((s, j)) => {
                return Some((SearchKey::Uid(s), j));
            },
            None => {
                return None;
            },
        }
    }
    None
}

/// `key *(SP key)` at the top level of a SEARCH command.
pub open spec fn spec_sc_list(s: Seq<u8>, i: int) -> Option<(Seq<SearchKeyShape>, int)>
    decreases s.len() - i,
    when 0 <= i <= s.len()
    via spec_sc_list_decreases
{
    match spec_search_key(s, i) {
        None => None,
        Some((k, j)) => if j <= i || j > s.len() {
            None
        } else if crate::parse::byte_at(s, j, 0x20) {
            match spec_sc_list(s, j + 1) {
                Some((t, e)) => Some((seq![k] + t, e)),
                None => None,
            }
        } else {
            Some((seq![k], j))
        },
    }
}

#[via_fn]
proof fn spec_sc_list_decreases(s: Seq<u8>, i: int) {
}

/// A single key stands alone; several become a conjunction.
pub open spec fn spec_search_criteria(s: Seq<u8>, i: int) -> Option<(SearchKeyShape, int)> {
    match spec_sc_list(s, i) {
        Some((all, j)) => Some(
            (
                if all.len() == 1 {
                    all[0]
                } else {
                    SearchKeyShape::And(all)
                },
                j,
            ),
        ),
        None => None,
    }
}

/// One or more top-level keys, space-separated.
fn sc_key_list(input: &[u8], pos: usize) -> (r: Option<(Vec<SearchKey>, usize)>)
    requires
        pos <= input@.len(),
    ensures
        match spec_sc_list(input@, pos as int) {
            Some((g, j)) => r matches Some((ks, rj)) && search_key_shapes(ks@) == g && rj == j
                && pos < j <= input@.len() && ks@.len() > 0 && forall|i: int|
                0 <= i < ks@.len() ==> (#[trigger] ks@[i]).wf(),
            None => r is None,
        },
    decreases input@.len() - pos, 1int,
{
    let n = input.len();
    let (k, j) = match search_key(input, pos) {
        Some(p) => p,
        None => {
            return None;
        },
    };
    if !expect_byte(input, j, 0x20) {
        let mut ks: Vec<SearchKey> = Vec::new();
        ks.push(k);
        proof {
            assert(ks@.drop_first() =~= Seq::<SearchKey>::empty());
            assert(search_key_shapes(Seq::<SearchKey>::empty()) == Seq::<SearchKeyShape>::empty());
            assert(search_key_shapes(ks@) =~= seq![search_key_shape(k)]);
        }
        return Some((ks, j));
    }
    let (mut tail, e) = match sc_key_list(input, j + 1) {
        Some(p) => p,
        None => {
            return None;
        },
    };
    proof {
        assert(tail@.insert(0, k) =~= seq![k] + tail@);
        assert((seq![k] + tail@).drop_first() =~= tail@);
        assert(search_key_shapes(seq![k] + tail@) == seq![search_key_shape(k)]
            + search_key_shapes(tail@));
    }
    tail.insert(0, k);
    Some((tail, e))
}

fn search_criteria(input: &[u8], pos: usize) -> (r: Option<(SearchKey, usize)>)
    requires
        pos <= input@.len(),
    ensures
        match spec_search_criteria(input@, pos as int) {
            Some((g, j)) => r matches Some((k, rj)) && search_key_shape(k) == g && k.wf() && rj
                == j && pos < j <= input@.len(),
            None => r is None,
        },
{
    let (keys, j) = match sc_key_list(input, pos) {
        Some(p) => p,
        None => {
            return None;
        },
    };
    proof {
        lemma_search_key_shapes_len(keys@);
    }
    if keys.len() == 1 {
        proof {
            assert(keys@.drop_first() =~= Seq::<SearchKey>::empty());
            assert(search_key_shapes(Seq::<SearchKey>::empty()) == Seq::<SearchKeyShape>::empty());
            assert(search_key_shapes(keys@) =~= seq![search_key_shape(keys@[0])]);
        }
        let ghost okeys = keys@;
        let mut keys = keys;
        let k = keys.remove(0);
        proof {
            assert(k == okeys[0]);
            assert(search_key_shapes(okeys)[0] == search_key_shape(okeys[0]));
            assert(okeys[0].wf());
        }
        return Some((k, j));
    }
    match NonEmptyVec::new(keys) {
        Ok(nev) => {
            proof {
                crate::command::lemma_search_keys_wf(nev@);
            }
            Some((SearchKey::And(nev), j))
        },
        Err(_) => None,
    }
}

// --------------------------------------------------------------------------
// The command grammar
// --------------------------------------------------------------------------

/// The specification-level form of a command's operation.
pub ghost enum CommandBodyShape {
    Capability,
    Noop,
    Logout,
    StartTLS,
    Check,
    Close,
    Expunge,
    Login(crate::parse::AStringShape, crate::parse::AStringShape),
    Select(MailboxShape),
    Examine(MailboxShape),
    Create(MailboxShape),
    Delete(MailboxShape),
    Subscribe(MailboxShape),
    Unsubscribe(MailboxShape),
    Rename(MailboxShape, MailboxShape),
    Search(Option<crate::parse::AStringShape>, SearchKeyShape, bool),
    Fetch(Seq<crate::sequence::Sequence>, FetchAttsShape, bool),
    Store(Seq<crate::sequence::Sequence>, StoreType, StoreResponse, Seq<FlagShape>, bool),
    Copy(Seq<crate::sequence::Sequence>, MailboxShape, bool),
}

pub open spec fn command_body_shape(b: CommandBody) -> CommandBodyShape {
    match b {
        CommandBody::Capability => CommandBodyShape::Capability,
        CommandBody::Noop => CommandBodyShape::Noop,
        CommandBody::Logout => CommandBodyShape::Logout,
        CommandBody::StartTLS => CommandBodyShape::StartTLS,
        CommandBody::Check => CommandBodyShape::Check,
        CommandBody::Close => CommandBodyShape::Close,
        CommandBody::Expunge => CommandBodyShape::Expunge,
        CommandBody::Login { username, password } => CommandBodyShape::Login(
            crate::parse::astring_shape(username),
            crate::parse::astring_shape(password),
        ),
        CommandBody::Select { mailbox } => CommandBodyShape::Select(mailbox_shape(mailbox)),
        CommandBody::Examine { mailbox } => CommandBodyShape::Examine(mailbox_shape(mailbox)),
        CommandBody::Create { mailbox } => CommandBodyShape::Create(mailbox_shape(mailbox)),
        CommandBody::Delete { mailbox } => CommandBodyShape::Delete(mailbox_shape(mailbox)),
        CommandBody::Subscribe { mailbox } => CommandBodyShape::Subscribe(mailbox_shape(mailbox)),
        CommandBody::Unsubscribe { mailbox } => CommandBodyShape::Unsubscribe(
            mailbox_shape(mailbox),
        ),
        CommandBody::Rename { existing_mailbox_name, new_mailbox_name } => CommandBodyShape::Rename(
            mailbox_shape(existing_mailbox_name),
            mailbox_shape(new_mailbox_name),
        ),
        CommandBody::Search { charset, criteria, uid } => CommandBodyShape::Search(
            match charset {
                None => None,
                Some(c) => Some(crate::parse::astring_shape(c)),
            },
            search_key_shape(criteria),
            uid,
        ),
        CommandBody::Fetch { sequence_set, attributes, uid } => CommandBodyShape::Fetch(
            sequence_set@,
            fetch_atts_shape(attributes),
            uid,
        ),
        CommandBody::Store { sequence_set, kind, response, flags, uid } => CommandBodyShape::Store(
            sequence_set@,
            kind,
            response,
            flags_shape(flags@),
            uid,
        ),
        CommandBody::Copy { sequence_set, mailbox, uid } => CommandBodyShape::Copy(
            sequence_set@,
            mailbox_shape(mailbox),
            uid,
        ),
    }
}

/// The operation name and arguments of a command line; `uid` is set when
/// the `UID` prefix has already been read.
pub open spec fn spec_command_body(s: Seq<u8>, i: int, uid: bool) -> Option<(
    CommandBodyShape,
    int,
)>
    decreases s.len() - i,
    when 0 <= i <= s.len()
    via spec_command_body_decreases
{
    let wend = crate::parse::span(s, i, |b: u8| is_atom_char(b));
    if wend == i {
        None
    } else {
        let w = upper_seq(s.subrange(i, wend));
        if !uid && w == pkw_uid() {
            if crate::parse::byte_at(s, wend, 0x20) {
                spec_command_body(s, wend + 1, true)
            } else {
                None
            }
        }
         else if w == pkw_capability() {
            if uid {
                None
            } else {
                Some((CommandBodyShape::Capability, wend))
            }
        }
         else if w == pkw_noop() {
            if uid {
                None
            } else {
                Some((CommandBodyShape::Noop, wend))
            }
        }
         else if w == pkw_logout() {
            if uid {
                None
            } else {
                Some((CommandBodyShape::Logout, wend))
            }
        }
         else if w == pkw_starttls() {
            if uid {
                None
            } else {
                Some((CommandBodyShape::StartTLS, wend))
            }
        }
         else if w == pkw_check() {
            if uid {
                None
            } else {
                Some((CommandBodyShape::Check, wend))
            }
        }
         else if w == pkw_close() {
            if uid {
                None
            } else {
                Some((CommandBodyShape::Close, wend))
            }
        }
         else if w == pkw_expunge() {
            if uid {
                None
            } else {
                Some((CommandBodyShape::Expunge, wend))
            }
        }
         else if w == pkw_select() {
            if uid || !crate::parse::byte_at(s, wend, 0x20) {
                None
            } else {
                match spec_mailbox(s, wend + 1) {
                    Some((m, j)) => Some((CommandBodyShape::Select(m), j)),
                    None => None,
                }
            }
        }
         else if w == pkw_examine() {
            if uid || !crate::parse::byte_at(s, wend, 0x20) {
                None
            } else {
                match spec_mailbox(s, wend + 1) {
                    Some((m, j)) => Some((CommandBodyShape::Examine(m), j)),
                    None => None,
                }
            }
        }
         else if w == pkw_create() {
            if uid || !crate::parse::byte_at(s, wend, 0x20) {
                None
            } else {
                match spec_mailbox(s, wend + 1) {
                    Some((m, j)) => Some((CommandBodyShape::Create(m), j)),
                    None => None,
                }
            }
        }
         else if w == pkw_delete() {
            if uid || !crate::parse::byte_at(s, wend, 0x20) {
                None
            } else {
                match spec_mailbox(s, wend + 1) {
                    Some((m, j)) => Some((CommandBodyShape::Delete(m), j)),
                    None => None,
                }
            }
        }
         else if w == pkw_subscribe() {
            if uid || !crate::parse::byte_at(s, wend, 0x20) {
                None
            } else {
                match spec_mailbox(s, wend + 1) {
                    Some((m, j)) => Some((CommandBodyShape::Subscribe(m), j)),
                    None => None,
                }
            }
        }
         else if w == pkw_unsubscribe() {
            if uid || !crate::parse::byte_at(s, wend, 0x20) {
                None
            } else {
                match spec_mailbox(s, wend + 1) {
                    Some((m, j)) => Some((CommandBodyShape::Unsubscribe(m), j)),
                    None => None,
                }
            }
        }
         else if w == pkw_login() {
            if uid || !crate::parse::byte_at(s, wend, 0x20) {
                None
            } else {
                match crate::parse::spec_astring(s, wend + 1) {
                    None => None,
                    Some((u, j)) => if !crate::parse::byte_at(s, j, 0x20) {
                        None
                    } else {
                        match crate::parse::spec_astring(s, j + 1) {
                            Some((p, j2)) => Some((CommandBodyShape::Login(u, p), j2)),
                            None => None,
                        }
                    },
                }
            }
        } else if w == pkw_rename() {
            if uid || !crate::parse::byte_at(s, wend, 0x20) {
                None
            } else {
                match spec_mailbox(s, wend + 1) {
                    None => None,
                    Some((a, j)) => if !crate::parse::byte_at(s, j, 0x20) {
                        None
                    } else {
                        match spec_mailbox(s, j + 1) {
                            Some((b, j2)) => Some((CommandBodyShape::Rename(a, b), j2)),
                            None => None,
                        }
                    },
                }
            }
        } else if w == pkw_search() {
            if !crate::parse::byte_at(s, wend, 0x20) {
                None
            } else {
                let cur0 = wend + 1;
                let cend = crate::parse::span(s, cur0, |b: u8| is_atom_char(b));
                let cs_step: Option<(Option<crate::parse::AStringShape>, int)> = if cend > cur0
                    && upper_seq(s.subrange(cur0, cend)) == pkw_charset() {
                    if crate::parse::byte_at(s, cend, 0x20) {
                        match crate::parse::spec_astring(s, cend + 1) {
                            Some((cs, j)) => if crate::parse::byte_at(s, j, 0x20) {
                                Some((Some(cs), j + 1))
                            } else {
                                None
                            },
                            None => None,
                        }
                    } else {
                        None
                    }
                } else {
                    Some((None, cur0))
                };
                match cs_step {
                    None => None,
                    Some((charset, cur)) => match spec_search_criteria(s, cur) {
                        Some((k, j)) => Some((CommandBodyShape::Search(charset, k, uid), j)),
                        None => None,
                    },
                }
            }
        } else if w == pkw_fetch() {
            if !crate::parse::byte_at(s, wend, 0x20) {
                None
            } else {
                match crate::sequence::spec_sequence_set(s, wend + 1) {
                    None => None,
                    Some((ss, j)) => if !crate::parse::byte_at(s, j, 0x20) {
                        None
                    } else {
                        match spec_fetch_atts(s, j + 1) {
                            Some((atts, j2)) => Some((CommandBodyShape::Fetch(ss, atts, uid), j2)),
                            None => None,
                        }
                    },
                }
            }
        } else if w == pkw_store() {
            if !crate::parse::byte_at(s, wend, 0x20) {
                None
            } else {
                match crate::sequence::spec_sequence_set(s, wend + 1) {
                    None => None,
                    Some((ss, j)) => if !crate::parse::byte_at(s, j, 0x20) {
                        None
                    } else {
                        let aend = crate::parse::span(s, j + 1, |b: u8| is_atom_char(b));
                        if aend == j + 1 {
                            None
                        } else {
                            let aw = upper_seq(s.subrange(j + 1, aend));
                            let kr: Option<(StoreType, StoreResponse)> = if aw == pkw_flags() {
                                Some((StoreType::Replace, StoreResponse::Answer))
                            } else if aw == pkw_flags_silent() {
                                Some((StoreType::Replace, StoreResponse::Silent))
                            } else if aw == pkw_plus_flags() {
                                Some((StoreType::Add, StoreResponse::Answer))
                            } else if aw == pkw_plus_flags_silent() {
                                Some((StoreType::Add, StoreResponse::Silent))
                            } else if aw == pkw_minus_flags() {
                                Some((StoreType::Remove, StoreResponse::Answer))
                            } else if aw == pkw_minus_flags_silent() {
                                Some((StoreType::Remove, StoreResponse::Silent))
                            } else {
                                None
                            };
                            match kr {
                                None => None,
                                Some((kind, resp)) => if !crate::parse::byte_at(s, aend, 0x20) {
                                    None
                                } else {
                                    match spec_store_flags(s, aend + 1) {
                                        Some((fs, j2)) => Some(
                                            (CommandBodyShape::Store(ss, kind, resp, fs, uid), j2),
                                        ),
                                        None => None,
                                    }
                                },
                            }
                        }
                    },
                }
            }
        } else if w == pkw_copy() {
            if !crate::parse::byte_at(s, wend, 0x20) {
                None
            } else {
                match crate::sequence::spec_sequence_set(s, wend + 1) {
                    None => None,
                    Some((ss, j)) => if !crate::parse::byte_at(s, j, 0x20) {
                        None
                    } else {
                        match spec_mailbox(s, j + 1) {
                            Some((m, j2)) => Some((CommandBodyShape::Copy(ss, m, uid), j2)),
                            None => None,
                        }
                    },
                }
            }
        } else {
            None
        }
    }
}

#[via_fn]
proof fn spec_command_body_decreases(s: Seq<u8>, i: int, uid: bool) {
    crate::parse::lemma_span_props(s, i, |b: u8| is_atom_char(b));
}

/// The grammar of a complete framed command: tag, space, operation, CRLF,
/// consuming the frame exactly.
pub open spec fn spec_command_grammar(s: Seq<u8>, end: int) -> Option<(Seq<u8>, CommandBodyShape)> {
    match crate::parse::spec_tag(s, 0) {
        None => None,
        Some((t, j)) => if !crate::parse::byte_at(s, j, 0x20) {
            None
        } else {
            match spec_command_body(s, j + 1, false) {
                None => None,
                Some((b, j2)) => if crate::parse::byte_at(s, j2, 0x0d) && crate::parse::byte_at(
                    s,
                    j2 + 1,
                    0x0a,
                ) && j2 + 2 == end {
                    Some((t, b))
                } else {
                    None
                },
            }
        },
    }
}

#[verifier::rlimit(100)]
#[verifier::spinoff_prover]
fn command_body(input: &[u8], pos: usize, uid: bool) -> (r: Option<(CommandBody, usize)>)
    requires
        pos <= input@.len(),
    ensures
        match spec_command_body(input@, pos as int, uid) {
            Some((g, j)) => r matches Some((b, rj)) && command_body_shape(b) == g && b.wf() && rj
                == j && pos < j <= input@.len(),
            None => r is None,
        },
    decreases input@.len() - pos,
{
    let n = input.len();
    let wend = span_atom(input, pos);
    if wend == pos {
        return None;
    }
    let c_uid: [u8; 3] = [0x55, 0x49, 0x44];
    proof {
        assert(c_uid@ =~= pkw_uid());
    }
    if !uid && word_is(input, pos, wend, c_uid.as_slice()) {
        if !expect_byte(input, wend, 0x20) {
            return None;
        }
        return command_body(input, wend + 1, true);
    }
    let c1: [u8; 10] = [0x43, 0x41, 0x50, 0x41, 0x42, 0x49, 0x4c, 0x49, 0x54, 0x59];
    proof {
        assert(c1@ =~= pkw_capability());
    }
    if word_is(input, pos, wend, c1.as_slice()) {
        if uid {
            return None;
        }
        return Some((CommandBody::Capability, wend));
    }
    let c2: [u8; 4] = [0x4e, 0x4f, 0x4f, 0x50];
    proof {
        assert(c2@ =~= pkw_noop());
    }
    if word_is(input, pos, wend, c2.as_slice()) {
        if uid {
            return None;
        }
        return Some((CommandBody::Noop, wend));
    }
    let c3: [u8; 6] = [0x4c, 0x4f, 0x47, 0x4f, 0x55, 0x54];
    proof {
        assert(c3@ =~= pkw_logout());
    }
    if word_is(input, pos, wend, c3.as_slice()) {
        if uid {
            return None;
        }
        return Some((CommandBody::Logout, wend));
    }
    let c4: [u8; 8] = [0x53, 0x54, 0x41, 0x52, 0x54, 0x54, 0x4c, 0x53];
    proof {
        assert(c4@ =~= pkw_starttls());
    }
    if word_is(input, pos, wend, c4.as_slice()) {
        if uid {
            return None;
        }
        return Some((CommandBody::StartTLS, wend));
    }
    let c5: [u8; 5] = [0x43, 0x48, 0x45, 0x43, 0x4b];
    proof {
        assert(c5@ =~= pkw_check());
    }
    if word_is(input, pos, wend, c5.as_slice()) {
        if uid {
            return None;
        }
        return Some((CommandBody::Check, wend));
    }
    let c6: [u8; 5] = [0x43, 0x4c, 0x4f, 0x53, 0x45];
    proof {
        assert(c6@ =~= pkw_close());
    }
    if word_is(input, pos, wend, c6.as_slice()) {
        if uid {
            return None;
        }
        return Some((CommandBody::Close, wend));
    }
    let c7: [u8; 7] = [0x45, 0x58, 0x50, 0x55, 0x4e, 0x47, 0x45];
    proof {
        assert(c7@ =~= pkw_expunge());
    }
    if word_is(input, pos, wend, c7.as_slice()) {
        if uid {
            return None;
        }
        return Some((CommandBody::Expunge, wend));
    }
    let c8: [u8; 6] = [0x53, 0x45, 0x4c, 0x45, 0x43, 0x54];
    proof {
        assert(c8@ =~= pkw_select());
    }
    if word_is(input, pos, wend, c8.as_slice()) {
        if uid || !expect_byte(input, wend, 0x20) {
            return None;
        }
        match mailbox(input, wend + 1) {
            Some((m, j)) => {
                return Some((CommandBody::Select { mailbox: m }, j));
            },
            None => {
                return None;
            },
        }
    }
    let c9: [u8; 7] = [0x45, 0x58, 0x41, 0x4d, 0x49, 0x4e, 0x45];
    proof {
        assert(c9@ =~= pkw_examine());
    }
    if word_is(input, pos, wend, c9.as_slice()) {
        if uid || !expect_byte(input, wend, 0x20) {
            return None;
        }
        match mailbox(input, wend + 1) {
            Some((m, j)) => {
                return Some((CommandBody::Examine { mailbox: m }, j));
            },
            None => {
                return None;
            },
        }
    }
    let c10: [u8; 6] = [0x43, 0x52, 0x45, 0x41, 0x54, 0x45];
    proof {
        assert(c10@ =~= pkw_create());
    }
    if word_is(input, pos, wend, c10.as_slice()) {
        if uid || !expect_byte(input, wend, 0x20) {
            return None;
        }
        match mailbox(input, wend + 1) {
            Some((m, j)) => {
                return Some((CommandBody::Create { mailbox: m }, j));
            },
            None => {
                return None;
            },
        }
    }
    let c11: [u8; 6] = [0x44, 0x45, 0x4c, 0x45, 0x54, 0x45];
    proof {
        assert(c11@ =~= pkw_delete());
    }
    if word_is(input, pos, wend, c11.as_slice()) {
        if uid || !expect_byte(input, wend, 0x20) {
            return None;
        }
        match mailbox(input, wend + 1) {
            Some((m, j)) => {
                return Some((CommandBody::Delete { mailbox: m }, j));
            },
            None => {
                return None;
            },
        }
    }
    let c12: [u8; 9] = [0x53, 0x55, 0x42, 0x53, 0x43, 0x52, 0x49, 0x42, 0x45];
    proof {
        assert(c12@ =~= pkw_subscribe());
    }
    if word_is(input, pos, wend, c12.as_slice()) {
        if uid || !expect_byte(input, wend, 0x20) {
            return None;
        }
        match mailbox(input, wend + 1) {
            Some((m, j)) => {
                return Some((CommandBody::Subscribe { mailbox: m }, j));
            },
            None => {
                return None;
            },
        }
    }
    let c13: [u8; 11] = [0x55, 0x4e, 0x53, 0x55, 0x42, 0x53, 0x43, 0x52, 0x49, 0x42, 0x45];
    proof {
        assert(c13@ =~= pkw_unsubscribe());
    }
    if word_is(input, pos, wend, c13.as_slice()) {
        if uid || !expect_byte(input, wend, 0x20) {
            return None;
        }
        match mailbox(input, wend + 1) {
            Some((m, j)) => {
                return Some((CommandBody::Unsubscribe { mailbox: m }, j));
            },
            None => {
                return None;
            },
        }
    }
    let c_login: [u8; 5] = [0x4c, 0x4f, 0x47, 0x49, 0x4e];
    proof {
        assert(c_login@ =~= pkw_login());
    }
    if word_is(input, pos, wend, c_login.as_slice()) {
        if uid || !expect_byte(input, wend, 0x20) {
            return None;
        }
        let (u, j) = match astring(input, wend + 1) {
            Some(p) => p,
            None => {
                return None;
            },
        };
        if !expect_byte(input, j, 0x20) {
            return None;
        }
        match astring(input, j + 1) {
            Some((p, j2)) => {
                return Some((CommandBody::Login { username: u, password: p }, j2));
            },
            None => {
                return None;
            },
        }
    }
    let c_rename: [u8; 6] = [0x52, 0x45, 0x4e, 0x41, 0x4d, 0x45];
    proof {
        assert(c_rename@ =~= pkw_rename());
    }
    if word_is(input, pos, wend, c_rename.as_slice()) {
        if uid || !expect_byte(input, wend, 0x20) {
            return None;
        }
        let (a, j) = match mailbox(input, wend + 1) {
            Some(p) => p,
            None => {
                return None;
            },
        };
        if !expect_byte(input, j, 0x20) {
            return None;
        }
        match mailbox(input, j + 1) {
            Some((b, j2)) => {
                return Some((
                    CommandBody::Rename { existing_mailbox_name: a, new_mailbox_name: b },
                    j2,
                ));
            },
            None => {
                return None;
            },
        }
    }
    let c_search: [u8; 6] = [0x53, 0x45, 0x41, 0x52, 0x43, 0x48];
    proof {
        assert(c_search@ =~= pkw_search());
    }
    if word_is(input, pos, wend, c_search.as_slice()) {
        if !expect_byte(input, wend, 0x20) {
            return None;
        }
        let mut cur = wend + 1;
        let mut charset: Option<AString> = None;
        let cend = span_atom(input, cur);
        let c_charset: [u8; 7] = [0x43, 0x48, 0x41, 0x52, 0x53, 0x45, 0x54];
        proof {
            assert(c_charset@ =~= pkw_charset());
        }
        if cend > cur && word_is(input, cur, cend, c_charset.as_slice()) {
            if !expect_byte(input, cend, 0x20) {
                return None;
            }
            let (cs, j) = match astring(input, cend + 1) {
                Some(p) => p,
                None => {
                    return None;
                },
            };
            if !expect_byte(input, j, 0x20) {
                return None;
            }
            charset = Some(cs);
            cur = j + 1;
        }
        match search_criteria(input, cur) {
            Some((k, j)) => {
                return Some((CommandBody::Search { charset, criteria: k, uid }, j));
            },
            None => {
                return None;
            },
        }
    }
    let c_fetch: [u8; 5] = [0x46, 0x45, 0x54, 0x43, 0x48];
    proof {
        assert(c_fetch@ =~= pkw_fetch());
    }
    if word_is(input, pos, wend, c_fetch.as_slice()) {
        if !expect_byte(input, wend, 0x20) {
            return None;
        }
        let (ss, j) = match sequence_set(input, wend + 1) {
            Some(p) => p,
            None => {
                return None;
            },
        };
        if !expect_byte(input, j, 0x20) {
            return None;
        }
        match fetch_atts(input, j + 1) {
            Some((atts, j2)) => {
                return Some((
                    CommandBody::Fetch { sequence_set: ss, attributes: atts, uid },
                    j2,
                ));
            },
            None => {
                return None;
            },
        }
    }
    let c_store: [u8; 5] = [0x53, 0x54, 0x4f, 0x52, 0x45];
    proof {
        assert(c_store@ =~= pkw_store());
    }
    if word_is(input, pos, wend, c_store.as_slice()) {
        if !expect_byte(input, wend, 0x20) {
            return None;
        }
        let (ss, j) = match sequence_set(input, wend + 1) {
            Some(p) => p,
            None => {
                return None;
            },
        };
        if !expect_byte(input, j, 0x20) {
            return None;
        }
        let aend = span_atom(input, j + 1);
        if aend == j + 1 {
            return None;
        }
        let astart = j + 1;
        let mut kind = StoreType::Replace;
        let mut response = StoreResponse::Answer;
        let mut matched = false;
        let s1: [u8; 5] = [0x46, 0x4c, 0x41, 0x47, 0x53];
        proof {
            assert(s1@ =~= pkw_flags());
        }
        if word_is(input, astart, aend, s1.as_slice()) {
            kind = StoreType::Replace;
            response = StoreResponse::Answer;
            matched = true;
        }
        let s2: [u8; 12] = [0x46, 0x4c, 0x41, 0x47, 0x53, 0x2e, 0x53, 0x49, 0x4c, 0x45, 0x4e, 0x54];
        proof {
            assert(s2@ =~= pkw_flags_silent());
        }
        if !matched && word_is(input, astart, aend, s2.as_slice()) {
            kind = StoreType::Replace;
            response = StoreResponse::Silent;
            matched = true;
        }
        let s3: [u8; 6] = [0x2b, 0x46, 0x4c, 0x41, 0x47, 0x53];
        proof {
            assert(s3@ =~= pkw_plus_flags());
        }
        if !matched && word_is(input, astart, aend, s3.as_slice()) {
            kind = StoreType::Add;
            response = StoreResponse::Answer;
            matched = true;
        }
        let s4: [u8; 13] = [
            0x2b, 0x46, 0x4c, 0x41, 0x47, 0x53, 0x2e, 0x53, 0x49, 0x4c, 0x45, 0x4e, 0x54,
        ];
        proof {
            assert(s4@ =~= pkw_plus_flags_silent());
        }
        if !matched && word_is(input, astart, aend, s4.as_slice()) {
            kind = StoreType::Add;
            response = StoreResponse::Silent;
            matched = true;
        }
        let s5: [u8; 6] = [0x2d, 0x46, 0x4c, 0x41, 0x47, 0x53];
        proof {
            assert(s5@ =~= pkw_minus_flags());
        }
        if !matched && word_is(input, astart, aend, s5.as_slice()) {
            kind = StoreType::Remove;
            response = StoreResponse::Answer;
            matched = true;
        }
        let s6: [u8; 13] = [
            0x2d, 0x46, 0x4c, 0x41, 0x47, 0x53, 0x2e, 0x53, 0x49, 0x4c, 0x45, 0x4e, 0x54,
        ];
        proof {
            assert(s6@ =~= pkw_minus_flags_silent());
        }
        if !matched && word_is(input, astart, aend, s6.as_slice()) {
            kind = StoreType::Remove;
            response = StoreResponse::Silent;
            matched = true;
        }
        if !matched {
            return None;
        }
        if !expect_byte(input, aend, 0x20) {
            return None;
        }
        match store_flags(input, aend + 1) {
            Some((fs, j2)) => {
                return Some((
                    CommandBody::Store { sequence_set: ss, kind, response, flags: fs, uid },
                    j2,
                ));
            },
            None => {
                return None;
            },
        }
    }
    let c_copy: [u8; 4] = [0x43, 0x4f, 0x50, 0x59];
    proof {
        assert(c_copy@ =~= pkw_copy());
    }
    if word_is(input, pos, wend, c_copy.as_slice()) {
        if !expect_byte(input, wend, 0x20) {
            return None;
        }
        let (ss, j) = match sequence_set(input, wend + 1) {
            Some(p) => p,
            None => {
                return None;
            },
        };
        if !expect_byte(input, j, 0x20) {
            return None;
        }
        match mailbox(input, j + 1) {
            Some((m, j2)) => {
                return Some((CommandBody::Copy { sequence_set: ss, mailbox: m, uid }, j2));
            },
            None => {
                return None;
            },
        }
    }
    None
}

/// Parses one client command from the start of `input`.
///
/// The framing stage decides completeness: a missing CRLF, or a literal
/// announcement with too few following octets, is `Incomplete` with a
/// lower bound on the bytes still needed.  On complete framing the result
/// follows the command grammar exactly: `Ok` with the grammar's command
/// if and only if the framed bytes obey it, `Failed` otherwise.
pub fn command(input: &[u8]) -> (r: Result<(Command, usize), ParseError>)
    ensures
        match spec_frame(input@, 0) {
            Framing::Incomplete(k) => r matches Err(e) && e matches ParseError::Incomplete(kk)
                && kk as int == k,
            Framing::Complete(end) => match spec_command_grammar(input@, end) {
                Some((t, b)) => r matches Ok((c, nn)) && c.tag@ == t && command_body_shape(c.body)
                    == b && c.wf() && nn as int == end && 0 < nn <= input@.len(),
                None => r == Err::<(Command, usize), ParseError>(ParseError::Failed),
            },
        },
{
    let n = input.len();
    let end = match frame(input, 0) {
        Ok(e) => e,
        Err(e) => {
            return Err(e);
        },
    };
    let (t, j) = match crate::parse::tag(input, 0) {
        Some(p) => p,
        None => {
            return Err(ParseError::Failed);
        },
    };
    if !expect_byte(input, j, 0x20) {
        return Err(ParseError::Failed);
    }
    let (body, j2) = match command_body(input, j + 1, false) {
        Some(p) => p,
        None => {
            return Err(ParseError::Failed);
        },
    };
    if expect_byte(input, j2, 0x0d) && expect_byte(input, j2 + 1, 0x0a) && j2 + 2 == end {
        Ok((Command { tag: t, body }, end))
    } else {
        Err(ParseError::Failed)
    }
}

} // verus!
