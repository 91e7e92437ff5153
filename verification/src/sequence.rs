//! Sequence sets: expressions such as `5,1:3,*` naming messages by number
//! or unique identifier.  Entries keep the order and the form they were
//! given in; encoding never merges or reorders them.

use vstd::prelude::*;
use crate::ValidationError;
use crate::primitive::{dec_digits, encode_number, is_digit, NonEmptyVec, joined, lemma_joined_push};
use crate::parse::{spec_number, number, byte_at, expect_byte, lemma_span_props};

verus! {

/// One endpoint of a sequence entry: a message number, or `*` for the
/// largest number in use.
#[derive(Debug, Clone, Copy, PartialEq, Eq, Structural)]
pub enum SeqNo {
    /// A concrete non-zero message number.
    Value(u32),
    /// `*`: the largest number in use.
    Largest,
}

impl SeqNo {
    /// Message numbers are non-zero.
    pub open spec fn wf(&self) -> bool {
        match self {
            SeqNo::Value(n) => n > 0,
            SeqNo::Largest => true,
        }
    }

    pub open spec fn encoded(&self) -> Seq<u8> {
        match self {
            SeqNo::Value(n) => dec_digits(*n as nat),
            SeqNo::Largest => seq![0x2au8],
        }
    }

    pub fn encode(&self, out: &mut Vec<u8>)
        ensures
            final(out)@ == old(out)@ + self.encoded(),
    {
        match self {
            SeqNo::Value(n) => encode_number(*n, out),
            SeqNo::Largest => out.push(0x2a),
        }
    }
}

/// One entry of a sequence set: a single number or a `lo:hi` range.
/// An unordered range (`7:3`) is kept as given, not swapped.
#[derive(Debug, Clone, Copy, PartialEq, Eq, Structural)]
pub enum Sequence {
    Single(SeqNo),
    Range(SeqNo, SeqNo),
}

impl Sequence {
    pub open spec fn wf(&self) -> bool {
        match self {
            Sequence::Single(n) => n.wf(),
            Sequence::Range(a, b) => a.wf() && b.wf(),
        }
    }

    pub open spec fn encoded(&self) -> Seq<u8> {
        match self {
            Sequence::Single(n) => n.encoded(),
            Sequence::Range(a, b) => a.encoded() + seq![0x3au8] + b.encoded(),
        }
    }

    pub fn encode(&self, out: &mut Vec<u8>)
        ensures
            final(out)@ == old(out)@ + self.encoded(),
    {
        match self {
            Sequence::Single(n) => n.encode(out),
            Sequence::Range(a, b) => {
                a.encode(out);
                out.push(0x3a);
                b.encode(out);
                assert(final(out)@ =~= old(out)@ + self.encoded());
            },
        }
    }
}

/// An ordered, non-empty list of sequence entries.
#[derive(Debug, Clone, PartialEq, Eq)]
pub struct SequenceSet(pub NonEmptyVec<Sequence>);

impl View for SequenceSet {
    type V = Seq<Sequence>;

    open spec fn view(&self) -> Seq<Sequence> {
        self.0@
    }
}

impl SequenceSet {
    pub open spec fn wf(&self) -> bool {
        self@.len() > 0 && forall|i: int| 0 <= i < self@.len() ==> self@[i].wf()
    }

    /// Rejects an empty entry list; entries are kept in the order given.
    pub fn new(entries: Vec<Sequence>) -> (r: Result<SequenceSet, ValidationError>)
        ensures
            r is Ok <==> entries@.len() > 0,
            r matches Ok(v) ==> v@ == entries@,
            r is Err ==> r == Err::<SequenceSet, ValidationError>(ValidationError::Empty),
    {
        match NonEmptyVec::new(entries) {
            Ok(v) => Ok(SequenceSet(v)),
            Err(e) => Err(e),
        }
    }

    /// The wire form: the entries in their given order, comma-separated.
    pub open spec fn encoded(&self) -> Seq<u8> {
        joined(self@.map_values(|e: Sequence| e.encoded()), seq![0x2cu8])
    }

    pub fn encode(&self, out: &mut Vec<u8>)
        ensures
            final(out)@ == old(out)@ + self.encoded(),
    {
        let entries = self.0.as_vec();
        let ghost parts = self@.map_values(|e: Sequence| e.encoded());
        let mut i: usize = 0;
        while i < entries.len()
            invariant
                0 <= i <= entries@.len(),
                entries@ == self@,
                parts == self@.map_values(|e: Sequence| e.encoded()),
                out@ == old(out)@ + joined(parts.subrange(0, i as int), seq![0x2cu8]),
            decreases entries@.len() - i,
        {
            if i > 0 {
                out.push(0x2c);
            }
            entries[i].encode(out);
            proof {
                let pre = parts.subrange(0, i as int);
                assert(parts.subrange(0, i + 1) =~= pre.push(parts[i as int]));
                lemma_joined_push(pre, parts[i as int], seq![0x2cu8]);
                assert(parts[i as int] == self@[i as int].encoded());
                assert(out@ =~= old(out)@ + joined(parts.subrange(0, i + 1), seq![0x2cu8]));
            }
            i += 1;
        }
        proof {
            assert(parts.subrange(0, parts.len() as int) =~= parts);
        }
    }
}

// --------------------------------------------------------------------------
// Parsing
// --------------------------------------------------------------------------

/// `seq-number`: `*`, or a non-zero number without a leading zero.
pub open spec fn spec_seqno(s: Seq<u8>, i: int) -> Option<(SeqNo, int)> {
    if byte_at(s, i, 0x2a) {
        Some((SeqNo::Largest, i + 1))
    } else if byte_at(s, i, 0x30) {
        None
    } else {
        match spec_number(s, i) {
            Some((n, j)) => if n > 0 {
                Some((SeqNo::Value(n), j))
            } else {
                None
            },
            None => None,
        }
    }
}

pub proof fn lemma_spec_seqno_advances(s: Seq<u8>, i: int)
    requires
        0 <= i <= s.len(),
    ensures
        spec_seqno(s, i) matches Some((x, j)) ==> i < j <= s.len(),
{
    lemma_span_props(s, i, |b: u8| is_digit(b));
}

pub fn seqno(input: &[u8], pos: usize) -> (r: Option<(SeqNo, usize)>)
    requires
        pos <= input@.len(),
    ensures
        match spec_seqno(input@, pos as int) {
            Some((x, j)) => r matches Some((rx, rj)) && rx == x && rj == j && x.wf() && pos < j
                <= input@.len(),
            None => r is None,
        },
{
    proof {
        lemma_spec_seqno_advances(input@, pos as int);
    }
    let n = input.len();
    if expect_byte(input, pos, 0x2a) {
        assert(pos < n);
        return Some((SeqNo::Largest, pos + 1));
    }
    if expect_byte(input, pos, 0x30) {
        return None;
    }
    match number(input, pos) {
        Some((n, j)) => if n > 0 {
            Some((SeqNo::Value(n), j))
        } else {
            None
        },
        None => None,
    }
}

/// `sequence`: a seq-number, optionally `:` and a second seq-number.
pub open spec fn spec_sequence(s: Seq<u8>, i: int) -> Option<(Sequence, int)> {
    match spec_seqno(s, i) {
        Some((a, j)) => if byte_at(s, j, 0x3a) {
            match spec_seqno(s, j + 1) {
                Some((b, k)) => Some((Sequence::Range(a, b), k)),
                None => None,
            }
        } else {
            Some((Sequence::Single(a), j))
        },
        None => None,
    }
}

pub proof fn lemma_spec_sequence_advances(s: Seq<u8>, i: int)
    requires
        0 <= i <= s.len(),
    ensures
        spec_sequence(s, i) matches Some((x, j)) ==> i < j <= s.len(),
{
    lemma_spec_seqno_advances(s, i);
    match spec_seqno(s, i) {
        Some((a, j)) => {
            if byte_at(s, j, 0x3a) {
                lemma_spec_seqno_advances(s, j + 1);
            }
        },
        None => {},
    }
}

pub fn sequence(input: &[u8], pos: usize) -> (r: Option<(Sequence, usize)>)
    requires
        pos <= input@.len(),
    ensures
        match spec_sequence(input@, pos as int) {
            Some((x, j)) => r matches Some((rx, rj)) && rx == x && rj == j && x.wf() && pos < j
                <= input@.len(),
            None => r is None,
        },
{
    let n = input.len();
    let (a, j) = match seqno(input, pos) {
        Some(p) => p,
        None => {
            return None;
        },
    };
    if expect_byte(input, j, 0x3a) {
        assert(j < n);
        match seqno(input, j + 1) {
            Some((b, k)) => Some((Sequence::Range(a, b), k)),
            None => None,
        }
    } else {
        Some((Sequence::Single(a), j))
    }
}

/// `sequence-set`: one or more sequences separated by commas.
pub open spec fn spec_sequence_set(s: Seq<u8>, i: int) -> Option<(Seq<Sequence>, int)>
    decreases s.len() - i,
    when 0 <= i <= s.len()
    via spec_sequence_set_decreases
{
    match spec_sequence(s, i) {
        Some((e, j)) => if byte_at(s, j, 0x2c) {
            match spec_sequence_set(s, j + 1) {
                Some((tail, k)) => Some((seq![e] + tail, k)),
                None => None,
            }
        } else {
            Some((seq![e], j))
        },
        None => None,
    }
}

#[via_fn]
proof fn spec_sequence_set_decreases(s: Seq<u8>, i: int) {
    lemma_spec_sequence_advances(s, i);
}

pub proof fn lemma_spec_sequence_set_advances(s: Seq<u8>, i: int)
    requires
        0 <= i <= s.len(),
    ensures
        spec_sequence_set(s, i) matches Some((l, j)) ==> i < j <= s.len(),
    decreases s.len() - i,
{
    lemma_spec_sequence_advances(s, i);
    match spec_sequence(s, i) {
        Some((e, j)) => {
            if byte_at(s, j, 0x2c) {
                lemma_spec_sequence_set_advances(s, j + 1);
            }
        },
        None => {},
    }
}

pub fn sequence_set(input: &[u8], pos: usize) -> (r: Option<(SequenceSet, usize)>)
    requires
        pos <= input@.len(),
    ensures
        match spec_sequence_set(input@, pos as int) {
            Some((entries, j)) => r matches Some((v, rj)) && v@ == entries && v.wf() && rj == j
                && pos < j <= input@.len(),
            None => r is None,
        },
{
    let n = input.len();
    let mut entries: Vec<Sequence> = Vec::new();
    let mut cur = pos;
    proof {
        match spec_sequence_set(input@, pos as int) {
            Some((all, aj)) => {
                assert(entries@ + all =~= all);
            },
            None => {},
        }
    }
    loop
        invariant
            pos <= cur <= input@.len(),
            input@.len() <= usize::MAX,
            entries@.len() == 0 ==> cur == pos,
            forall|k: int| 0 <= k < entries@.len() ==> entries@[k].wf(),
            match spec_sequence_set(input@, cur as int) {
                Some((tail, j)) => spec_sequence_set(input@, pos as int) matches Some((all, aj))
                    && all == entries@ + tail && aj == j,
                None => spec_sequence_set(input@, pos as int) is None,
            },
        decreases input@.len() - cur,
    {
        let (e, j) = match sequence(input, cur) {
            Some(p) => p,
            None => {
                return None;
            },
        };
        entries.push(e);
        if expect_byte(input, j, 0x2c) {
            assert(j < input@.len());
            proof {
                match spec_sequence_set(input@, j + 1) {
                    Some((tail, k)) => {
                        assert(entries@.drop_last() + (seq![e] + tail) =~= entries@ + tail);
                    },
                    None => {},
                }
            }
            cur = j + 1;
        } else {
            proof {
                assert(entries@.drop_last() + seq![e] =~= entries@);
            }
            match SequenceSet::new(entries) {
                Ok(v) => {
                    return Some((v, j));
                },
                Err(_) => {
                    return None;
                },
            }

        }
    }
}

} // verus!
