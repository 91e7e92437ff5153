//! Round-trip guarantees: parsing the wire form of a constructible value
//! yields that value back, whatever well-delimited input follows it.
//!
//! Each grammar rule has a positional lemma (the wire form may stand
//! anywhere in a buffer), and a headline law stated over `encoded() +
//! rest`.

use vstd::prelude::*;
use crate::primitive::{
    is_atom_char, is_astring_char, is_quoted_char, is_digit, is_tag_char, Atom, Quoted, Literal,
    IString, NString, AString, Tag, dec_digits, upper_byte, upper_seq,
};
use crate::parse::{
    spec_atom, spec_tag, spec_quoted, spec_literal, spec_number, spec_string, spec_nstring,
    spec_astring, istring_shape, nstring_shape, astring_shape, kw_nil, lemma_span_eq,
    lemma_dec_digits_val, byte_at,
};
use crate::primitive::joined;
use crate::sequence::{SeqNo, Sequence, SequenceSet, spec_seqno, spec_sequence, spec_sequence_set};

verus! {

/// An atom's bytes, followed by anything that is not an atom character,
/// parse back to the same atom.
pub proof fn lemma_atom_at(s: Seq<u8>, i: int, a: Atom)
    requires
        a.wf(),
        0 <= i,
        i + a@.len() <= s.len(),
        s.subrange(i, i + a@.len()) == a@,
        i + a@.len() == s.len() || !is_atom_char(s[i + a@.len()]),
    ensures
        spec_atom(s, i) == Some((a@, i + a@.len())),
{
    let l = a@.len() as int;
    assert forall|k: int| i <= k < i + l implies is_atom_char(s[k]) by {
        assert(s[k] == s.subrange(i, i + l)[k - i]);
    };
    lemma_span_eq(s, i, i + l, |b: u8| is_atom_char(b));
}

/// The headline law for atoms: `parse(encode(a) + rest)` gives `a` back.
pub proof fn law_atom_round_trip(a: Atom, rest: Seq<u8>)
    requires
        a.wf(),
        rest.len() > 0 ==> !is_atom_char(rest[0]),
    ensures
        spec_atom(a.encoded() + rest, 0) == Some((a@, a.encoded().len() as int)),
{
    let s = a.encoded() + rest;
    assert(s.subrange(0, a@.len() as int) =~= a@);
    if rest.len() > 0 {
        assert(s[a@.len() as int] == rest[0]);
    }
    lemma_atom_at(s, 0, a);
}

/// The headline law for tags: a tag's bytes, followed by anything that is
/// not a tag character (such as the space before the command name), parse
/// back to the same tag.
pub proof fn law_tag_round_trip(t: Tag, rest: Seq<u8>)
    requires
        t.wf(),
        rest.len() > 0 ==> !is_tag_char(rest[0]),
    ensures
        spec_tag(t.encoded() + rest, 0) == Some((t@, t.encoded().len() as int)),
{
    let s = t.encoded() + rest;
    let l = t@.len() as int;
    assert(s.subrange(0, l) =~= t@);
    assert forall|k: int| 0 <= k < l implies is_tag_char(s[k]) by {
        assert(s[k] == s.subrange(0, l)[k]);
    };
    if rest.len() > 0 {
        assert(s[l] == rest[0]);
    }
    lemma_span_eq(s, 0, l, |b: u8| is_tag_char(b));
}

/// A quoted string's wire form parses back to the same content.
pub proof fn lemma_quoted_at(s: Seq<u8>, i: int, q: Quoted)
    requires
        q.wf(),
        0 <= i,
        i + q@.len() + 2 <= s.len(),
        s.subrange(i, i + q@.len() + 2) == q.encoded(),
    ensures
        spec_quoted(s, i) == Some((q@, i + q@.len() + 2)),
{
    let l = q@.len() as int;
    let e = q.encoded();
    assert forall|k: int| i <= k < i + l + 2 implies s[k] == e[k - i] by {
        assert(s[k] == s.subrange(i, i + l + 2)[k - i]);
    };
    assert(s[i] == 0x22);
    assert forall|k: int| i + 1 <= k < i + 1 + l implies is_quoted_char(s[k]) by {
        assert(s[k] == e[k - i]);
        assert(e[k - i] == q@[k - i - 1]);
    };
    assert(s[i + 1 + l] == e[l + 1]);
    assert(e[l + 1] == 0x22);
    assert(!is_quoted_char(0x22));
    lemma_span_eq(s, i + 1, i + 1 + l, |b: u8| is_quoted_char(b));
    assert(byte_at(s, i + 1 + l, 0x22));
    assert(s.subrange(i + 1, i + 1 + l) =~= q@);
}

/// The headline law for quoted strings.
pub proof fn law_quoted_round_trip(q: Quoted, rest: Seq<u8>)
    requires
        q.wf(),
    ensures
        spec_quoted(q.encoded() + rest, 0) == Some((q@, q.encoded().len() as int)),
{
    let s = q.encoded() + rest;
    assert(s.subrange(0, q@.len() + 2 as int) =~= q.encoded());
    lemma_quoted_at(s, 0, q);
}

/// A rendered number, followed by anything that is not a digit, parses
/// back to the same value.
pub proof fn lemma_number_at(s: Seq<u8>, i: int, n: u32)
    requires
        0 <= i,
        i + dec_digits(n as nat).len() <= s.len(),
        s.subrange(i, i + dec_digits(n as nat).len()) == dec_digits(n as nat),
        i + dec_digits(n as nat).len() == s.len() || !is_digit(
            s[i + dec_digits(n as nat).len()],
        ),
    ensures
        spec_number(s, i) == Some((n, i + dec_digits(n as nat).len())),
{
    let d = dec_digits(n as nat);
    let l = d.len() as int;
    lemma_dec_digits_val(n as nat);
    assert forall|k: int| i <= k < i + l implies is_digit(s[k]) by {
        assert(s[k] == s.subrange(i, i + l)[k - i]);
        assert(d[k - i] == s[k]);
    };
    lemma_span_eq(s, i, i + l, |b: u8| is_digit(b));
    assert(s.subrange(i, i + l) == d);
}

/// A literal's wire form (announcement, CRLF, content) parses back to the
/// same content and sync flag.  The content must fit the 32-bit count the
/// announcement grammar allows.
pub proof fn lemma_literal_at(s: Seq<u8>, i: int, l: Literal)
    requires
        l@.len() <= u32::MAX,
        0 <= i,
        i + l.encoded().len() <= s.len(),
        s.subrange(i, i + l.encoded().len()) == l.encoded(),
    ensures
        spec_literal(s, i) == Some((l@, l.is_sync(), i + l.encoded().len())),
{
    let e = l.encoded();
    let d = dec_digits(l@.len());
    let dl = d.len() as int;
    let el = e.len() as int;
    lemma_dec_digits_val(l@.len());
    assert forall|k: int| i <= k < i + el implies s[k] == e[k - i] by {
        assert(s[k] == s.subrange(i, i + el)[k - i]);
    };
    assert(s[i] == 0x7b);
    let marker = if l.is_sync() {
        0x7du8
    } else {
        0x2bu8
    };
    assert(e[1 + dl] == marker);
    assert(!is_digit(marker));
    assert(s.subrange(i + 1, i + 1 + dl) =~= d);
    assert(s[i + 1 + dl] == marker);
    lemma_number_at(s, i + 1, l@.len() as u32);
    let j = i + 1 + dl;
    let k = if l.is_sync() {
        j
    } else {
        j + 1
    };
    assert(byte_at(s, j, 0x2b) == !l.is_sync()) by {
        if l.is_sync() {
            assert(s[j] == 0x7d);
        } else {
            assert(s[j] == 0x2b);
        }
    };
    assert(s[k] == e[k - i]);
    assert(e[k - i] == 0x7d);
    assert(s[k + 1] == e[k + 1 - i]);
    assert(e[k + 1 - i] == 0x0d);
    assert(s[k + 2] == e[k + 2 - i]);
    assert(e[k + 2 - i] == 0x0a);
    assert(k + 3 + l@.len() == i + el);
    assert(s.subrange(k + 3, k + 3 + l@.len()) =~= l@);
}

/// The headline law for literals.
pub proof fn law_literal_round_trip(l: Literal, rest: Seq<u8>)
    requires
        l@.len() <= u32::MAX,
    ensures
        spec_literal(l.encoded() + rest, 0) == Some((
            l@,
            l.is_sync(),
            l.encoded().len() as int,
        )),
{
    let s = l.encoded() + rest;
    assert(s.subrange(0, l.encoded().len() as int) =~= l.encoded());
    lemma_literal_at(s, 0, l);
}

/// A string (quoted or literal) parses back to the same representation.
pub proof fn lemma_string_at(s: Seq<u8>, i: int, v: IString)
    requires
        v.wf(),
        v@.len() <= u32::MAX,
        0 <= i,
        i + v.encoded().len() <= s.len(),
        s.subrange(i, i + v.encoded().len()) == v.encoded(),
    ensures
        spec_string(s, i) == Some((istring_shape(v), i + v.encoded().len())),
{
    match v {
        IString::Quoted(q) => {
            lemma_quoted_at(s, i, q);
        },
        IString::Literal(l) => {
            assert(s[i] == s.subrange(i, i + v.encoded().len())[0]);
            assert(s[i] == 0x7b);
            assert(spec_quoted(s, i) is None);
            lemma_literal_at(s, i, l);
        },
    }
}

/// A nullable string parses back: `NIL` to the null value, a string to
/// the same representation.
pub proof fn lemma_nstring_at(s: Seq<u8>, i: int, v: NString)
    requires
        v.wf(),
        (match v@ {
            Some(content) => content.len() <= u32::MAX,
            None => true,
        }),
        0 <= i,
        i + v.encoded().len() <= s.len(),
        s.subrange(i, i + v.encoded().len()) == v.encoded(),
    ensures
        spec_nstring(s, i) == Some((nstring_shape(v), i + v.encoded().len())),
{
    match v.0 {
        None => {
            assert(v.encoded() =~= kw_nil());
            assert(s.subrange(i, i + 3) =~= kw_nil());
            assert(upper_seq(s.subrange(i, i + 3)) =~= kw_nil());
        },
        Some(istr) => {
            assert(s[i] == s.subrange(i, i + v.encoded().len())[0]);
            assert(s[i] == 0x22 || s[i] == 0x7b);
            assert(!crate::parse::keyword_at(s, i, kw_nil())) by {
                if i + 3 <= s.len() {
                    assert(upper_seq(s.subrange(i, i + 3))[0] == upper_byte(s[i]));
                    assert(upper_byte(s[i]) != 0x4e);
                    assert(kw_nil()[0] == 0x4e);
                }
            };
            lemma_string_at(s, i, istr);
        },
    }
}

/// The headline law for nullable strings.
pub proof fn law_nstring_round_trip(v: NString, rest: Seq<u8>)
    requires
        v.wf(),
        (match v@ {
            Some(content) => content.len() <= u32::MAX,
            None => true,
        }),
    ensures
        spec_nstring(v.encoded() + rest, 0) == Some((
            nstring_shape(v),
            v.encoded().len() as int,
        )),
{
    let s = v.encoded() + rest;
    assert(s.subrange(0, v.encoded().len() as int) =~= v.encoded());
    lemma_nstring_at(s, 0, v);
}

/// An astring parses back to the same representation: the bare atom form
/// when it was one, the string form otherwise.
pub proof fn lemma_astring_at(s: Seq<u8>, i: int, v: AString)
    requires
        v.wf(),
        v@.len() <= u32::MAX,
        0 <= i,
        i + v.encoded().len() <= s.len(),
        s.subrange(i, i + v.encoded().len()) == v.encoded(),
        i + v.encoded().len() == s.len() || !is_astring_char(s[i + v.encoded().len()]),
    ensures
        spec_astring(s, i) == Some((astring_shape(v), i + v.encoded().len())),
{
    match v {
        AString::Atom(a) => {
            let l = a@.len() as int;
            assert forall|k: int| i <= k < i + l implies is_astring_char(s[k]) by {
                assert(s[k] == s.subrange(i, i + l)[k - i]);
            };
            lemma_span_eq(s, i, i + l, |b: u8| is_astring_char(b));
            assert(s.subrange(i, i + l) == a@);
        },
        AString::String(istr) => {
            assert(s[i] == s.subrange(i, i + v.encoded().len())[0]);
            assert(s[i] == 0x22 || s[i] == 0x7b);
            assert(!is_astring_char(s[i]));
            lemma_span_eq(s, i, i, |b: u8| is_astring_char(b));
            lemma_string_at(s, i, istr);
        },
    }
}

/// The headline law for astrings: `parse(encode(v) + rest)` gives `v`
/// back whenever `rest` does not begin with an astring character.
pub proof fn law_astring_round_trip(v: AString, rest: Seq<u8>)
    requires
        v.wf(),
        v@.len() <= u32::MAX,
        rest.len() > 0 ==> !is_astring_char(rest[0]),
    ensures
        spec_astring(v.encoded() + rest, 0) == Some((
            astring_shape(v),
            v.encoded().len() as int,
        )),
{
    let s = v.encoded() + rest;
    assert(s.subrange(0, v.encoded().len() as int) =~= v.encoded());
    if rest.len() > 0 {
        assert(s[v.encoded().len() as int] == rest[0]);
    }
    lemma_astring_at(s, 0, v);
}

/// A positive number is never written with a leading zero.
pub proof fn lemma_dec_digits_leading(n: nat)
    requires
        n > 0,
    ensures
        dec_digits(n)[0] != 0x30,
    decreases n,
{
    lemma_dec_digits_val(n);
    if n >= 10 {
        lemma_dec_digits_leading(n / 10);
        lemma_dec_digits_val(n / 10);
        assert(dec_digits(n)[0] == dec_digits(n / 10)[0]);
    }
}

/// A sequence endpoint parses back: `*` to `Largest`, digits to the same
/// number.
pub proof fn lemma_seqno_at(s: Seq<u8>, i: int, x: SeqNo)
    requires
        x.wf(),
        0 <= i,
        i + x.encoded().len() <= s.len(),
        s.subrange(i, i + x.encoded().len()) == x.encoded(),
        i + x.encoded().len() == s.len() || !is_digit(s[i + x.encoded().len()]),
    ensures
        spec_seqno(s, i) == Some((x, i + x.encoded().len())),
{
    let e = x.encoded();
    let el = e.len() as int;
    assert forall|k: int| i <= k < i + el implies s[k] == e[k - i] by {
        assert(s[k] == s.subrange(i, i + el)[k - i]);
    };
    match x {
        SeqNo::Largest => {
            assert(s[i] == 0x2a);
        },
        SeqNo::Value(n) => {
            lemma_dec_digits_val(n as nat);
            lemma_dec_digits_leading(n as nat);
            assert(s[i] == e[0]);
            assert(is_digit(s[i]));
            assert(s[i] != 0x2a && s[i] != 0x30);
            lemma_number_at(s, i, n);
        },
    }
}

/// A sequence entry parses back, range form included.
pub proof fn lemma_sequence_at(s: Seq<u8>, i: int, x: Sequence)
    requires
        x.wf(),
        0 <= i,
        i + x.encoded().len() <= s.len(),
        s.subrange(i, i + x.encoded().len()) == x.encoded(),
        i + x.encoded().len() == s.len() || (!is_digit(s[i + x.encoded().len()]) && s[i
            + x.encoded().len()] != 0x3a),
    ensures
        spec_sequence(s, i) == Some((x, i + x.encoded().len())),
{
    let e = x.encoded();
    let el = e.len() as int;
    assert forall|k: int| i <= k < i + el implies s[k] == e[k - i] by {
        assert(s[k] == s.subrange(i, i + el)[k - i]);
    };
    match x {
        Sequence::Single(a) => {
            assert(s.subrange(i, i + a.encoded().len()) =~= a.encoded());
            lemma_seqno_at(s, i, a);
            let j = i + a.encoded().len() as int;
            assert(j == s.len() || s[j] != 0x3a);
        },
        Sequence::Range(a, b) => {
            let al = a.encoded().len() as int;
            let bl = b.encoded().len() as int;
            assert(s.subrange(i, i + al) =~= a.encoded());
            assert(s[i + al] == e[al]);
            assert(e[al] == 0x3a);
            assert(!is_digit(0x3a));
            lemma_seqno_at(s, i, a);
            let j = i + al;
            assert(byte_at(s, j, 0x3a));
            assert(s.subrange(j + 1, j + 1 + bl) =~= b.encoded());
            lemma_seqno_at(s, j + 1, b);
        },
    }
}

/// The wire forms of the entries of a sequence set all parse back, in the
/// order they were encoded.
pub proof fn lemma_sequence_entries_at(s: Seq<u8>, i: int, l: Seq<Sequence>)
    requires
        l.len() > 0,
        forall|k: int| 0 <= k < l.len() ==> (#[trigger] l[k]).wf(),
        0 <= i,
        i + joined(l.map_values(|x: Sequence| x.encoded()), seq![0x2cu8]).len() <= s.len(),
        s.subrange(
            i,
            i + joined(l.map_values(|x: Sequence| x.encoded()), seq![0x2cu8]).len(),
        ) == joined(l.map_values(|x: Sequence| x.encoded()), seq![0x2cu8]),
        ({
            let end = i + joined(l.map_values(|x: Sequence| x.encoded()), seq![0x2cu8]).len();
            end == s.len() || (!is_digit(s[end]) && s[end] != 0x3a && s[end] != 0x2c)
        }),
    ensures
        spec_sequence_set(s, i) == Some((
            l,
            i + joined(l.map_values(|x: Sequence| x.encoded()), seq![0x2cu8]).len(),
        )),
    decreases l.len(),
{
    let parts = l.map_values(|x: Sequence| x.encoded());
    let enc = joined(parts, seq![0x2cu8]);
    let el = enc.len() as int;
    assert forall|k: int| i <= k < i + el implies s[k] == enc[k - i] by {
        assert(s[k] == s.subrange(i, i + el)[k - i]);
    };
    let hl = l[0].encoded().len() as int;
    if l.len() == 1 {
        assert(enc == parts[0]);
        assert(s.subrange(i, i + hl) =~= l[0].encoded());
        lemma_sequence_at(s, i, l[0]);
        assert(i + hl == s.len() || s[i + hl] != 0x2c);
        assert(seq![l[0]] =~= l);
    } else {
        let tail = l.drop_first();
        let tparts = tail.map_values(|x: Sequence| x.encoded());
        assert(parts.drop_first() =~= tparts);
        assert(enc == parts[0] + seq![0x2cu8] + joined(tparts, seq![0x2cu8]));
        assert(s.subrange(i, i + hl) =~= l[0].encoded());
        assert(s[i + hl] == enc[hl]);
        assert(enc[hl] == 0x2c);
        assert(!is_digit(0x2c) && 0x2c != 0x3a);
        lemma_sequence_at(s, i, l[0]);
        let j = i + hl;
        assert(byte_at(s, j, 0x2c));
        let tl = joined(tparts, seq![0x2cu8]).len() as int;
        assert(j + 1 + tl == i + el);
        assert(s.subrange(j + 1, j + 1 + tl) =~= joined(tparts, seq![0x2cu8]));
        assert(forall|k: int| 0 <= k < tail.len() ==> (#[trigger] tail[k]).wf());
        lemma_sequence_entries_at(s, j + 1, tail);
        assert(seq![l[0]] + tail =~= l);
    }
}

/// The headline law for sequence sets: parsing the wire form of a set
/// gives back the same entries in the same order and the same form, so
/// encoding never reorders or merges what it was given.
pub proof fn law_sequence_set_round_trip(v: SequenceSet, rest: Seq<u8>)
    requires
        v.wf(),
        rest.len() > 0 ==> (!is_digit(rest[0]) && rest[0] != 0x3a && rest[0] != 0x2c),
    ensures
        spec_sequence_set(v.encoded() + rest, 0) == Some((v@, v.encoded().len() as int)),
{
    let s = v.encoded() + rest;
    assert(s.subrange(0, v.encoded().len() as int) =~= v.encoded());
    if rest.len() > 0 {
        assert(s[v.encoded().len() as int] == rest[0]);
    }
    lemma_sequence_entries_at(s, 0, v@);
}

} // verus!
