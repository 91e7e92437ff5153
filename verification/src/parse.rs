//! Shared parsing machinery: character-class spans, decimal numbers, and the
//! parsers for the primitive string types.
//!
//! Every grammar rule exists twice: as a specification function over
//! `Seq<u8>` that defines the rule mathematically, and as an executable
//! function whose contract ties it to the specification.

pub mod command;

use vstd::prelude::*;
use vstd::slice::{slice_subrange, slice_to_vec};
use crate::primitive::{
    is_atom_char, is_astring_char, is_quoted_char, is_tag_char, is_digit, atom_char, astring_char,
    quoted_char, tag_char, digit_char, upper_byte, upper_seq, Atom, AtomExt, Quoted, Literal,
    IString, NString, AString, Tag,
};

verus! {

/// Why an entry point could not produce a value from the bytes given.
#[derive(Debug, Clone, Copy, PartialEq, Eq)]
pub enum ParseError {
    /// The bytes are a valid prefix; at least this many more are needed.
    Incomplete(usize),
    /// The bytes can never be completed into a valid value.
    Failed,
}

// --------------------------------------------------------------------------
// Character-class spans
// --------------------------------------------------------------------------

/// The end of the run of bytes satisfying `pred` that starts at `i`.
pub open spec fn span(s: Seq<u8>, i: int, pred: spec_fn(u8) -> bool) -> int
    decreases s.len() - i,
{
    if i < s.len() && pred(s[i]) {
        span(s, i + 1, pred)
    } else {
        i
    }
}

pub proof fn lemma_span_props(s: Seq<u8>, i: int, pred: spec_fn(u8) -> bool)
    requires
        0 <= i <= s.len(),
    ensures
        i <= span(s, i, pred) <= s.len(),
        forall|k: int| i <= k < span(s, i, pred) ==> pred(s[k]),
        span(s, i, pred) < s.len() ==> !pred(s[span(s, i, pred)]),
    decreases s.len() - i,
{
    if i < s.len() && pred(s[i]) {
        lemma_span_props(s, i + 1, pred);
    }
}

/// The span is the unique cut obeying the run conditions.
pub proof fn lemma_span_eq(s: Seq<u8>, i: int, j: int, pred: spec_fn(u8) -> bool)
    requires
        0 <= i <= j <= s.len(),
        forall|k: int| i <= k < j ==> pred(s[k]),
        j == s.len() || !pred(s[j]),
    ensures
        span(s, i, pred) == j,
    decreases j - i,
{
    if i < j {
        lemma_span_eq(s, i + 1, j, pred);
    }
}

pub fn span_atom(input: &[u8], pos: usize) -> (r: usize)
    requires
        pos <= input@.len(),
    ensures
        r == span(input@, pos as int, |b: u8| is_atom_char(b)),
        pos <= r <= input@.len(),
{
    let mut j = pos;
    while j < input.len() && atom_char(input[j])
        invariant
            pos <= j <= input@.len(),
            forall|k: int| pos <= k < j ==> is_atom_char(input@[k]),
        decreases input@.len() - j,
    {
        j += 1;
    }
    proof {
        lemma_span_eq(input@, pos as int, j as int, |b: u8| is_atom_char(b));
    }
    j
}

pub fn span_astring(input: &[u8], pos: usize) -> (r: usize)
    requires
        pos <= input@.len(),
    ensures
        r == span(input@, pos as int, |b: u8| is_astring_char(b)),
        pos <= r <= input@.len(),
{
    let mut j = pos;
    while j < input.len() && astring_char(input[j])
        invariant
            pos <= j <= input@.len(),
            forall|k: int| pos <= k < j ==> is_astring_char(input@[k]),
        decreases input@.len() - j,
    {
        j += 1;
    }
    proof {
        lemma_span_eq(input@, pos as int, j as int, |b: u8| is_astring_char(b));
    }
    j
}

pub fn span_quoted(input: &[u8], pos: usize) -> (r: usize)
    requires
        pos <= input@.len(),
    ensures
        r == span(input@, pos as int, |b: u8| is_quoted_char(b)),
        pos <= r <= input@.len(),
{
    let mut j = pos;
    while j < input.len() && quoted_char(input[j])
        invariant
            pos <= j <= input@.len(),
            forall|k: int| pos <= k < j ==> is_quoted_char(input@[k]),
        decreases input@.len() - j,
    {
        j += 1;
    }
    proof {
        lemma_span_eq(input@, pos as int, j as int, |b: u8| is_quoted_char(b));
    }
    j
}

pub fn span_digit(input: &[u8], pos: usize) -> (r: usize)
    requires
        pos <= input@.len(),
    ensures
        r == span(input@, pos as int, |b: u8| is_digit(b)),
        pos <= r <= input@.len(),
{
    let mut j = pos;
    while j < input.len() && digit_char(input[j])
        invariant
            pos <= j <= input@.len(),
            forall|k: int| pos <= k < j ==> is_digit(input@[k]),
        decreases input@.len() - j,
    {
        j += 1;
    }
    proof {
        lemma_span_eq(input@, pos as int, j as int, |b: u8| is_digit(b));
    }
    j
}

pub fn span_tag(input: &[u8], pos: usize) -> (r: usize)
    requires
        pos <= input@.len(),
    ensures
        r == span(input@, pos as int, |b: u8| is_tag_char(b)),
        pos <= r <= input@.len(),
{
    let mut j = pos;
    while j < input.len() && tag_char(input[j])
        invariant
            pos <= j <= input@.len(),
            forall|k: int| pos <= k < j ==> is_tag_char(input@[k]),
        decreases input@.len() - j,
    {
        j += 1;
    }
    proof {
        lemma_span_eq(input@, pos as int, j as int, |b: u8| is_tag_char(b));
    }
    j
}

// --------------------------------------------------------------------------
// Decimal values
// --------------------------------------------------------------------------

/// The decimal value of a digit string (most significant digit first).
pub open spec fn dec_val(s: Seq<u8>) -> int
    decreases s.len(),
{
    if s.len() == 0 {
        0
    } else {
        dec_val(s.drop_last()) * 10 + (s.last() - 0x30)
    }
}

pub open spec fn all_digits(s: Seq<u8>) -> bool {
    forall|i: int| 0 <= i < s.len() ==> is_digit(s[i])
}

pub proof fn lemma_dec_val_bounds(s: Seq<u8>)
    requires
        all_digits(s),
    ensures
        dec_val(s) >= 0,
        s.len() > 0 ==> dec_val(s) >= dec_val(s.drop_last()),
    decreases s.len(),
{
    if s.len() > 0 {
        assert(all_digits(s.drop_last()));
        lemma_dec_val_bounds(s.drop_last());
    }
}

/// Appending digits can only grow the value.
pub proof fn lemma_dec_val_mono(s: Seq<u8>, k: int)
    requires
        all_digits(s),
        0 <= k <= s.len(),
    ensures
        dec_val(s) >= dec_val(s.subrange(0, k)),
    decreases s.len() - k,
{
    if k < s.len() {
        lemma_dec_val_mono(s, k + 1);
        let a = s.subrange(0, k + 1);
        assert(a.drop_last() =~= s.subrange(0, k));
        assert(all_digits(a));
        lemma_dec_val_bounds(a);
    } else {
        assert(s.subrange(0, k) =~= s);
    }
}

/// Reading the digits that `dec_digits` wrote gives the number back.
pub proof fn lemma_dec_digits_val(n: nat)
    ensures
        dec_val(crate::primitive::dec_digits(n)) == n,
        all_digits(crate::primitive::dec_digits(n)),
        crate::primitive::dec_digits(n).len() > 0,
    decreases n,
{
    let d = crate::primitive::dec_digits(n);
    if n < 10 {
        assert(d =~= seq![(0x30 + n) as u8]);
        assert(d.drop_last() =~= Seq::<u8>::empty());
        assert((0x30 + n) as u8 == 0x30 + n);
        assert(d.last() == 0x30 + n);
        assert(dec_val(d) == dec_val(d.drop_last()) * 10 + (d.last() - 0x30));
        assert(dec_val(Seq::<u8>::empty()) == 0);
    } else {
        lemma_dec_digits_val(n / 10);
        let p = crate::primitive::dec_digits((n / 10) as nat);
        assert(d =~= p + seq![(0x30 + n % 10) as u8]);
        assert(d.drop_last() =~= p);
        assert((0x30 + n % 10) as u8 == 0x30 + n % 10);
        assert(d.last() == 0x30 + n % 10);
        assert(dec_val(d) == dec_val(p) * 10 + n % 10);
        assert(all_digits(d)) by {
            assert(forall|i: int| 0 <= i < p.len() ==> d[i] == p[i]);
        };
        assert(n == (n / 10) * 10 + n % 10) by {
            vstd::arithmetic::div_mod::lemma_fundamental_div_mod(n as int, 10);
        };
    }
}

/// Parses `number`: one or more digits whose value fits in 32 bits.
pub open spec fn spec_number(s: Seq<u8>, i: int) -> Option<(u32, int)> {
    let j = span(s, i, |b: u8| is_digit(b));
    if j > i && dec_val(s.subrange(i, j)) <= u32::MAX {
        Some((dec_val(s.subrange(i, j)) as u32, j))
    } else {
        None
    }
}

pub fn number(input: &[u8], pos: usize) -> (r: Option<(u32, usize)>)
    requires
        pos <= input@.len(),
    ensures
        match spec_number(input@, pos as int) {
            Some((v, j)) => r matches Some((rv, rj)) && rv == v && rj == j,
            None => r is None,
        },
        r matches Some((v, j)) ==> pos < j <= input@.len(),
{
    let n = input.len();
    let j = span_digit(input, pos);
    proof {
        lemma_span_props(input@, pos as int, |b: u8| is_digit(b));
    }
    if j == pos {
        return None;
    }
    let ghost d = input@.subrange(pos as int, j as int);
    proof {
        assert(all_digits(d));
    }
    let mut acc: u64 = 0;
    let mut k = pos;
    while k < j
        invariant
            pos <= k <= j <= input@.len(),
            input@.len() <= usize::MAX,
            j == span(input@, pos as int, |b: u8| is_digit(b)),
            pos < j,
            all_digits(d),
            d == input@.subrange(pos as int, j as int),
            forall|m: int| pos <= m < j ==> is_digit(input@[m]),
            acc == dec_val(d.subrange(0, k - pos)),
            acc <= u32::MAX,
        decreases j - k,
    {
        let dig = input[k] - 0x30;
        proof {
            assert(is_digit(input@[k as int]));
            let pre = d.subrange(0, k - pos);
            let ext = d.subrange(0, k + 1 - pos);
            assert(ext.drop_last() =~= pre);
            assert(ext.last() == input@[k as int]);
        }
        let next: u64 = acc * 10 + (dig as u64);
        if next > 0xffff_ffff {
            proof {
                lemma_dec_val_mono(d, k + 1 - pos);
                assert(d.subrange(0, d.len() as int) =~= d);
            }
            return None;
        }
        acc = next;
        k += 1;
    }
    proof {
        assert(d.subrange(0, d.len() as int) =~= d);
    }
    Some((acc as u32, j))
}

// --------------------------------------------------------------------------
// Single bytes and keywords
// --------------------------------------------------------------------------

/// Byte `b` stands at position `i`.
pub open spec fn byte_at(s: Seq<u8>, i: int, b: u8) -> bool {
    0 <= i < s.len() && s[i] == b
}

pub fn expect_byte(input: &[u8], pos: usize, b: u8) -> (r: bool)
    requires
        pos <= input@.len(),
    ensures
        r == byte_at(input@, pos as int, b),
{
    pos < input.len() && input[pos] == b
}

/// The upper-case word `w` stands at position `i`, compared
/// case-insensitively.
pub open spec fn keyword_at(s: Seq<u8>, i: int, w: Seq<u8>) -> bool {
    0 <= i && i + w.len() <= s.len() && upper_seq(s.subrange(i, i + w.len())) == w
}

pub fn match_keyword(input: &[u8], pos: usize, w: &[u8]) -> (r: bool)
    requires
        pos <= input@.len(),
    ensures
        r == keyword_at(input@, pos as int, w@),
{
    if input.len() - pos < w.len() {
        assert(!keyword_at(input@, pos as int, w@));
        return false;
    }
    let ghost part = input@.subrange(pos as int, pos + w@.len());
    let mut i: usize = 0;
    while i < w.len()
        invariant
            0 <= i <= w@.len(),
            pos + w@.len() <= input@.len(),
            input@.len() <= usize::MAX,
            part == input@.subrange(pos as int, pos + w@.len()),
            forall|k: int| 0 <= k < i ==> upper_byte(part[k]) == w@[k],
        decreases w@.len() - i,
    {
        let b = input[pos + i];
        let u = if 0x61 <= b && b <= 0x7a {
            b - 0x20
        } else {
            b
        };
        proof {
            assert(part[i as int] == input@[pos + i]);
        }
        if u != w[i] {
            assert(upper_seq(part)[i as int] != w@[i as int]);
            return false;
        }
        i += 1;
    }
    assert(upper_seq(part) =~= w@);
    true
}

// --------------------------------------------------------------------------
// Primitive string parsers
// --------------------------------------------------------------------------

/// `atom`: one or more ATOM-CHARs, taken greedily.
pub open spec fn spec_atom(s: Seq<u8>, i: int) -> Option<(Seq<u8>, int)> {
    let j = span(s, i, |b: u8| is_atom_char(b));
    if j > i {
        Some((s.subrange(i, j), j))
    } else {
        None
    }
}

pub fn atom(input: &[u8], pos: usize) -> (r: Option<(Atom, usize)>)
    requires
        pos <= input@.len(),
    ensures
        match spec_atom(input@, pos as int) {
            Some((content, j)) => r matches Some((a, rj)) && a@ == content && a.wf() && rj == j
                && pos < j <= input@.len(),
            None => r is None,
        },
{
    let j = span_atom(input, pos);
    proof {
        lemma_span_props(input@, pos as int, |b: u8| is_atom_char(b));
    }
    if j == pos {
        return None;
    }
    let content = slice_to_vec(slice_subrange(input, pos, j));
    match Atom::new(content) {
        Ok(a) => Some((a, j)),
        Err(_) => None,
    }
}

/// `tag`: one or more tag characters, taken greedily.
pub open spec fn spec_tag(s: Seq<u8>, i: int) -> Option<(Seq<u8>, int)> {
    let j = span(s, i, |b: u8| is_tag_char(b));
    if j > i {
        Some((s.subrange(i, j), j))
    } else {
        None
    }
}

pub fn tag(input: &[u8], pos: usize) -> (r: Option<(Tag, usize)>)
    requires
        pos <= input@.len(),
    ensures
        match spec_tag(input@, pos as int) {
            Some((content, j)) => r matches Some((t, rj)) && t@ == content && t.wf() && rj == j
                && pos < j <= input@.len(),
            None => r is None,
        },
{
    let j = span_tag(input, pos);
    proof {
        lemma_span_props(input@, pos as int, |b: u8| is_tag_char(b));
    }
    if j == pos {
        return None;
    }
    let content = slice_to_vec(slice_subrange(input, pos, j));
    match Tag::new(content) {
        Ok(t) => Some((t, j)),
        Err(_) => None,
    }
}

/// `quoted`: DQUOTE, a run of unescaped quoted characters, DQUOTE.
pub open spec fn spec_quoted(s: Seq<u8>, i: int) -> Option<(Seq<u8>, int)> {
    if byte_at(s, i, 0x22) {
        let j = span(s, i + 1, |b: u8| is_quoted_char(b));
        if byte_at(s, j, 0x22) {
            Some((s.subrange(i + 1, j), j + 1))
        } else {
            None
        }
    } else {
        None
    }
}

pub fn quoted(input: &[u8], pos: usize) -> (r: Option<(Quoted, usize)>)
    requires
        pos <= input@.len(),
    ensures
        match spec_quoted(input@, pos as int) {
            Some((content, j)) => r matches Some((q, rj)) && q@ == content && q.wf() && rj == j
                && pos < j <= input@.len(),
            None => r is None,
        },
{
    let n = input.len();
    if !expect_byte(input, pos, 0x22) {
        return None;
    }
    assert(pos < n);
    let j = span_quoted(input, pos + 1);
    proof {
        lemma_span_props(input@, pos + 1, |b: u8| is_quoted_char(b));
    }
    if !expect_byte(input, j, 0x22) {
        return None;
    }
    assert(j < n);
    let content = slice_to_vec(slice_subrange(input, pos + 1, j));
    match Quoted::new(content) {
        Ok(q) => Some((q, j + 1)),
        Err(_) => None,
    }
}

/// `literal`: `{n}` (or `{n+}`) CRLF followed by exactly n octets, all of
/// which must already be present.
pub open spec fn spec_literal(s: Seq<u8>, i: int) -> Option<(Seq<u8>, bool, int)> {
    if byte_at(s, i, 0x7b) {
        match spec_number(s, i + 1) {
            Some((n, j)) => {
                let sync = !byte_at(s, j, 0x2b);
                let k = if sync {
                    j
                } else {
                    j + 1
                };
                if byte_at(s, k, 0x7d) && byte_at(s, k + 1, 0x0d) && byte_at(s, k + 2, 0x0a) && k
                    + 3 + n <= s.len() {
                    Some((s.subrange(k + 3, k + 3 + n), sync, k + 3 + n))
                } else {
                    None
                }
            },
            None => None,
        }
    } else {
        None
    }
}

pub fn literal(input: &[u8], pos: usize) -> (r: Option<(Literal, usize)>)
    requires
        pos <= input@.len(),
    ensures
        match spec_literal(input@, pos as int) {
            Some((content, sync, j)) => r matches Some((l, rj)) && l@ == content && l.is_sync()
                == sync && rj == j && pos < j <= input@.len(),
            None => r is None,
        },
{
    let len = input.len();
    if !expect_byte(input, pos, 0x7b) {
        return None;
    }
    assert(pos < len);
    let (n, j) = match number(input, pos + 1) {
        Some(p) => p,
        None => {
            return None;
        },
    };
    let sync = !expect_byte(input, j, 0x2b);
    let k = if sync {
        j
    } else {
        assert(j < len);
        j + 1
    };
    if !expect_byte(input, k, 0x7d) {
        return None;
    }
    assert(k < len);
    if !expect_byte(input, k + 1, 0x0d) {
        return None;
    }
    assert(k + 1 < len);
    if !expect_byte(input, k + 2, 0x0a) {
        return None;
    }
    assert(k + 2 < len);
    let nn = n as usize;
    if nn > input.len() - (k + 3) {
        return None;
    }
    let content = slice_to_vec(slice_subrange(input, k + 3, k + 3 + nn));
    let l = if sync {
        Literal::new(content)
    } else {
        Literal::new_non_sync(content)
    };
    Some((l, k + 3 + nn))
}

/// The specification-level shape of an [`IString`]: its content, which
/// representation was chosen, and (for literals) the sync flag.
pub ghost enum IStringShape {
    Quoted(Seq<u8>),
    Literal(Seq<u8>, bool),
}

/// The shape of an [`IString`] value.
pub open spec fn istring_shape(v: IString) -> IStringShape {
    match v {
        IString::Quoted(q) => IStringShape::Quoted(q@),
        IString::Literal(l) => IStringShape::Literal(l@, l.is_sync()),
    }
}

/// The specification-level shape of an [`AString`].
pub ghost enum AStringShape {
    Atom(Seq<u8>),
    String(IStringShape),
}

/// The shape of an [`AString`] value.
pub open spec fn astring_shape(v: AString) -> AStringShape {
    match v {
        AString::Atom(a) => AStringShape::Atom(a@),
        AString::String(s) => AStringShape::String(istring_shape(s)),
    }
}

/// `string`: quoted or literal.
pub open spec fn spec_string(s: Seq<u8>, i: int) -> Option<(IStringShape, int)> {
    match spec_quoted(s, i) {
        Some((content, j)) => Some((IStringShape::Quoted(content), j)),
        None => match spec_literal(s, i) {
            Some((content, sync, j)) => Some((IStringShape::Literal(content, sync), j)),
            None => None,
        },
    }
}

pub fn string(input: &[u8], pos: usize) -> (r: Option<(IString, usize)>)
    requires
        pos <= input@.len(),
    ensures
        match spec_string(input@, pos as int) {
            Some((shape, j)) => r matches Some((v, rj)) && istring_shape(v) == shape && v.wf()
                && rj == j && pos < j <= input@.len(),
            None => r is None,
        },
{
    match quoted(input, pos) {
        Some((q, j)) => Some((IString::Quoted(q), j)),
        None => match literal(input, pos) {
            Some((l, j)) => Some((IString::Literal(l), j)),
            None => None,
        },
    }
}

/// `nstring`: the case-insensitive word `NIL`, or a string.
pub open spec fn spec_nstring(s: Seq<u8>, i: int) -> Option<(Option<IStringShape>, int)> {
    if keyword_at(s, i, kw_nil()) {
        Some((None, i + 3))
    } else {
        match spec_string(s, i) {
            Some((shape, j)) => Some((Some(shape), j)),
            None => None,
        }
    }
}

/// The shape of an [`NString`] value: `None` is the null marker.
pub open spec fn nstring_shape(v: NString) -> Option<IStringShape> {
    match v.0 {
        Some(s) => Some(istring_shape(s)),
        None => None,
    }
}

pub open spec fn kw_nil() -> Seq<u8> {
    seq!['N' as u8, 'I' as u8, 'L' as u8]
}

pub fn nstring(input: &[u8], pos: usize) -> (r: Option<(NString, usize)>)
    requires
        pos <= input@.len(),
    ensures
        match spec_nstring(input@, pos as int) {
            Some((shape, j)) => r matches Some((v, rj)) && nstring_shape(v) == shape && v.wf()
                && rj == j && pos <= j <= input@.len(),
            None => r is None,
        },
{
    let w: [u8; 3] = ['N' as u8, 'I' as u8, 'L' as u8];
    proof {
        assert(w@ =~= kw_nil());
    }
    let n = input.len();
    if match_keyword(input, pos, w.as_slice()) {
        assert(kw_nil().len() == 3);
        assert(pos + 3 <= n);
        return Some((NString(None), pos + 3));
    }
    match string(input, pos) {
        Some((v, j)) => Some((NString(Some(v)), j)),
        None => None,
    }
}

/// `astring`: a run of ASTRING-CHARs, or a string.
pub open spec fn spec_astring(s: Seq<u8>, i: int) -> Option<(AStringShape, int)> {
    let j = span(s, i, |b: u8| is_astring_char(b));
    if j > i {
        Some((AStringShape::Atom(s.subrange(i, j)), j))
    } else {
        match spec_string(s, i) {
            Some((shape, j)) => Some((AStringShape::String(shape), j)),
            None => None,
        }
    }
}

pub fn astring(input: &[u8], pos: usize) -> (r: Option<(AString, usize)>)
    requires
        pos <= input@.len(),
    ensures
        match spec_astring(input@, pos as int) {
            Some((shape, j)) => r matches Some((v, rj)) && astring_shape(v) == shape && v.wf()
                && rj == j && pos < j <= input@.len(),
            None => r is None,
        },
{
    let j = span_astring(input, pos);
    proof {
        lemma_span_props(input@, pos as int, |b: u8| is_astring_char(b));
    }
    if j > pos {
        let content = slice_to_vec(slice_subrange(input, pos, j));
        match AtomExt::new(content) {
            Ok(a) => {
                return Some((AString::Atom(a), j));
            },
            Err(_) => {
                return None;
            },
        }
    }
    match string(input, pos) {
        Some((v, j)) => Some((AString::String(v), j)),
        None => None,
    }
}

// --------------------------------------------------------------------------
// Progress of the primitive parsers
// --------------------------------------------------------------------------

pub proof fn lemma_spec_quoted_advances(s: Seq<u8>, i: int)
    requires
        0 <= i <= s.len(),
    ensures
        spec_quoted(s, i) matches Some((c, j)) ==> i + 2 <= j <= s.len(),
{
    if byte_at(s, i, 0x22) {
        lemma_span_props(s, i + 1, |b: u8| is_quoted_char(b));
    }
}

pub proof fn lemma_spec_literal_advances(s: Seq<u8>, i: int)
    requires
        0 <= i <= s.len(),
    ensures
        spec_literal(s, i) matches Some((c, sync, j)) ==> i + 4 <= j <= s.len(),
{
    if byte_at(s, i, 0x7b) {
        lemma_span_props(s, i + 1, |b: u8| is_digit(b));
    }
}

pub proof fn lemma_spec_string_advances(s: Seq<u8>, i: int)
    requires
        0 <= i <= s.len(),
    ensures
        spec_string(s, i) matches Some((sh, j)) ==> i + 2 <= j <= s.len(),
{
    lemma_spec_quoted_advances(s, i);
    lemma_spec_literal_advances(s, i);
}

pub proof fn lemma_spec_astring_advances(s: Seq<u8>, i: int)
    requires
        0 <= i <= s.len(),
    ensures
        spec_astring(s, i) matches Some((sh, j)) ==> i < j <= s.len(),
{
    lemma_span_props(s, i, |b: u8| is_astring_char(b));
    lemma_spec_string_advances(s, i);
}

/// The content bytes a parsed astring carries, whatever its
/// representation.
pub open spec fn astring_shape_content(sh: AStringShape) -> Seq<u8> {
    match sh {
        AStringShape::Atom(c) => c,
        AStringShape::String(IStringShape::Quoted(c)) => c,
        AStringShape::String(IStringShape::Literal(c, sync)) => c,
    }
}

/// The shape of an astring carries exactly the value's content.
pub proof fn lemma_astring_shape_content(v: AString)
    ensures
        astring_shape_content(astring_shape(v)) == v@,
{
}

} // verus!
