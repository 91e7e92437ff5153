//! Validated primitive string types of the IMAP lexical grammar: atoms,
//! quoted strings, literals, tags, and the unions built from them.

use vstd::prelude::*;
use crate::ValidationError;

verus! {

// --------------------------------------------------------------------------
// Character classes (RFC 3501, Formal Syntax)
// --------------------------------------------------------------------------

/// CTL: control characters.
pub open spec fn is_ctl(b: u8) -> bool {
    b < 0x20 || b == 0x7f
}

/// atom-specials: `(` `)` `{` SP CTL, list wildcards `%` `*`,
/// quoted specials `"` `\`, and the response special `]`.
pub open spec fn is_atom_special(b: u8) -> bool {
    ||| b == 0x28
    ||| b == 0x29
    ||| b == 0x7b
    ||| b == 0x20
    ||| is_ctl(b)
    ||| b == 0x25
    ||| b == 0x2a
    ||| b == 0x22
    ||| b == 0x5c
    ||| b == 0x5d
}

/// ATOM-CHAR: any 7-bit character that is not an atom-special.
pub open spec fn is_atom_char(b: u8) -> bool {
    b < 0x80 && !is_atom_special(b)
}

/// ASTRING-CHAR: ATOM-CHAR or the response special `]`.
pub open spec fn is_astring_char(b: u8) -> bool {
    is_atom_char(b) || b == 0x5d
}

/// A character allowed unescaped inside a quoted string: any 7-bit
/// non-NUL character except CR, LF, `"` and `\`.
pub open spec fn is_quoted_char(b: u8) -> bool {
    0 < b < 0x80 && b != 0x0d && b != 0x0a && b != 0x22 && b != 0x5c
}

/// A character allowed in a tag: ASTRING-CHAR except `+`.
pub open spec fn is_tag_char(b: u8) -> bool {
    is_astring_char(b) && b != 0x2b
}

/// A decimal digit.
pub open spec fn is_digit(b: u8) -> bool {
    0x30 <= b <= 0x39
}

/// All bytes of `s` satisfy ATOM-CHAR.
pub open spec fn all_atom_chars(s: Seq<u8>) -> bool {
    forall|i: int| 0 <= i < s.len() ==> is_atom_char(s[i])
}

/// All bytes of `s` satisfy ASTRING-CHAR.
pub open spec fn all_astring_chars(s: Seq<u8>) -> bool {
    forall|i: int| 0 <= i < s.len() ==> is_astring_char(s[i])
}

/// All bytes of `s` may stand unescaped in a quoted string.
pub open spec fn all_quoted_chars(s: Seq<u8>) -> bool {
    forall|i: int| 0 <= i < s.len() ==> is_quoted_char(s[i])
}

/// All bytes of `s` satisfy the tag character class.
pub open spec fn all_tag_chars(s: Seq<u8>) -> bool {
    forall|i: int| 0 <= i < s.len() ==> is_tag_char(s[i])
}

pub fn atom_char(b: u8) -> (r: bool)
    ensures
        r == is_atom_char(b),
{
    b < 0x80 && !(b == 0x28 || b == 0x29 || b == 0x7b || b == 0x20 || b < 0x20 || b == 0x7f
        || b == 0x25 || b == 0x2a || b == 0x22 || b == 0x5c || b == 0x5d)
}

pub fn astring_char(b: u8) -> (r: bool)
    ensures
        r == is_astring_char(b),
{
    atom_char(b) || b == 0x5d
}

pub fn quoted_char(b: u8) -> (r: bool)
    ensures
        r == is_quoted_char(b),
{
    0 < b && b < 0x80 && b != 0x0d && b != 0x0a && b != 0x22 && b != 0x5c
}

pub fn tag_char(b: u8) -> (r: bool)
    ensures
        r == is_tag_char(b),
{
    astring_char(b) && b != 0x2b
}

pub fn digit_char(b: u8) -> (r: bool)
    ensures
        r == is_digit(b),
{
    0x30 <= b && b <= 0x39
}

/// ASCII upper-casing of one byte.
pub open spec fn upper_byte(b: u8) -> u8 {
    if 0x61 <= b <= 0x7a {
        (b - 0x20) as u8
    } else {
        b
    }
}

/// ASCII upper-casing of a byte sequence, for case-insensitive comparison.
pub open spec fn upper_seq(s: Seq<u8>) -> Seq<u8> {
    s.map_values(|b: u8| upper_byte(b))
}

/// Compares `s` case-insensitively against the (already upper-case) `word`.
pub fn eq_ignore_case(s: &[u8], word: &[u8]) -> (r: bool)
    ensures
        r == (upper_seq(s@) == word@),
{
    if s.len() != word.len() {
        assert(upper_seq(s@).len() == s@.len());
        return false;
    }
    let mut i: usize = 0;
    while i < s.len()
        invariant
            0 <= i <= s.len(),
            s.len() == word.len(),
            forall|j: int| 0 <= j < i ==> upper_byte(s@[j]) == word@[j],
        decreases s.len() - i,
    {
        let b = s[i];
        let u = if 0x61 <= b && b <= 0x7a { b - 0x20 } else { b };
        if u != word[i] {
            assert(upper_seq(s@)[i as int] != word@[i as int]);
            return false;
        }
        i += 1;
    }
    assert(upper_seq(s@) =~= word@);
    true
}

/// Appends all of `s` to `out`.
pub fn extend_bytes(out: &mut Vec<u8>, s: &[u8])
    ensures
        final(out)@ == old(out)@ + s@,
{
    let mut i: usize = 0;
    while i < s.len()
        invariant
            0 <= i <= s.len(),
            out@ == old(out)@ + s@.subrange(0, i as int),
        decreases s.len() - i,
    {
        out.push(s[i]);
        assert(out@ =~= old(out)@ + s@.subrange(0, i + 1 as int));
        i += 1;
    }
    assert(out@ =~= old(out)@ + s@);
}

// --------------------------------------------------------------------------
// Decimal rendering of numbers
// --------------------------------------------------------------------------

/// The decimal digits of `n`, most significant first.
pub open spec fn dec_digits(n: nat) -> Seq<u8>
    decreases n,
{
    if n < 10 {
        seq![(0x30 + n) as u8]
    } else {
        dec_digits(n / 10) + seq![(0x30 + n % 10) as u8]
    }
}

/// Writes the decimal representation of `n` to `out`.
pub fn encode_number(n: u32, out: &mut Vec<u8>)
    ensures
        final(out)@ == old(out)@ + dec_digits(n as nat),
    decreases n,
{
    if n < 10 {
        out.push((0x30 + n) as u8);
        assert(out@ =~= old(out)@ + dec_digits(n as nat));
    } else {
        encode_number(n / 10, out);
        out.push((0x30 + (n % 10)) as u8);
        assert(out@ =~= old(out)@ + dec_digits(n as nat));
    }
}

// --------------------------------------------------------------------------
// Atom
// --------------------------------------------------------------------------

/// An unquoted bare word: one or more ATOM-CHARs.
#[derive(Debug, Clone, PartialEq, Eq)]
pub struct Atom {
    bytes: Vec<u8>,
}

impl View for Atom {
    type V = Seq<u8>;

    closed spec fn view(&self) -> Seq<u8> {
        self.bytes@
    }
}

impl Atom {
    /// The lexical rule for atoms: non-empty, ATOM-CHARs only.
    pub open spec fn is_valid(s: Seq<u8>) -> bool {
        s.len() > 0 && all_atom_chars(s)
    }

    pub open spec fn wf(&self) -> bool {
        Self::is_valid(self@)
    }

    /// Validates `bytes` against the atom rule.
    pub fn new(bytes: Vec<u8>) -> (r: Result<Atom, ValidationError>)
        ensures
            r is Ok <==> Self::is_valid(bytes@),
            r matches Ok(a) ==> a@ == bytes@,
            bytes@.len() == 0 ==> r == Err::<Atom, ValidationError>(ValidationError::Empty),
            r is Err && bytes@.len() > 0 ==> r == Err::<Atom, ValidationError>(
                ValidationError::DisallowedByte,
            ),
    {
        if bytes.len() == 0 {
            return Err(ValidationError::Empty);
        }
        let mut i: usize = 0;
        while i < bytes.len()
            invariant
                0 <= i <= bytes.len(),
                forall|j: int| 0 <= j < i ==> is_atom_char(bytes@[j]),
            decreases bytes.len() - i,
        {
            if !atom_char(bytes[i]) {
                return Err(ValidationError::DisallowedByte);
            }
            i += 1;
        }
        Ok(Atom { bytes })
    }

    /// The validated bytes.
    pub fn as_bytes(&self) -> (r: &Vec<u8>)
        ensures
            r@ == self@,
    {
        &self.bytes
    }

    /// The wire form of an atom is just its bytes.
    pub open spec fn encoded(&self) -> Seq<u8> {
        self@
    }

    pub fn encode(&self, out: &mut Vec<u8>)
        ensures
            final(out)@ == old(out)@ + self.encoded(),
    {
        extend_bytes(out, self.bytes.as_slice());
    }
}

// --------------------------------------------------------------------------
// AtomExt
// --------------------------------------------------------------------------

/// An atom usable in extension contexts: one or more ASTRING-CHARs.
#[derive(Debug, Clone, PartialEq, Eq)]
pub struct AtomExt {
    bytes: Vec<u8>,
}

impl View for AtomExt {
    type V = Seq<u8>;

    closed spec fn view(&self) -> Seq<u8> {
        self.bytes@
    }
}

impl AtomExt {
    /// Non-empty, ASTRING-CHARs only.
    pub open spec fn is_valid(s: Seq<u8>) -> bool {
        s.len() > 0 && all_astring_chars(s)
    }

    pub open spec fn wf(&self) -> bool {
        Self::is_valid(self@)
    }

    pub fn new(bytes: Vec<u8>) -> (r: Result<AtomExt, ValidationError>)
        ensures
            r is Ok <==> Self::is_valid(bytes@),
            r matches Ok(a) ==> a@ == bytes@,
            bytes@.len() == 0 ==> r == Err::<AtomExt, ValidationError>(ValidationError::Empty),
            r is Err && bytes@.len() > 0 ==> r == Err::<AtomExt, ValidationError>(
                ValidationError::DisallowedByte,
            ),
    {
        if bytes.len() == 0 {
            return Err(ValidationError::Empty);
        }
        let mut i: usize = 0;
        while i < bytes.len()
            invariant
                0 <= i <= bytes.len(),
                forall|j: int| 0 <= j < i ==> is_astring_char(bytes@[j]),
            decreases bytes.len() - i,
        {
            if !astring_char(bytes[i]) {
                return Err(ValidationError::DisallowedByte);
            }
            i += 1;
        }
        Ok(AtomExt { bytes })
    }

    pub fn as_bytes(&self) -> (r: &Vec<u8>)
        ensures
            r@ == self@,
    {
        &self.bytes
    }

    pub open spec fn encoded(&self) -> Seq<u8> {
        self@
    }

    pub fn encode(&self, out: &mut Vec<u8>)
        ensures
            final(out)@ == old(out)@ + self.encoded(),
    {
        extend_bytes(out, self.bytes.as_slice());
    }
}

// --------------------------------------------------------------------------
// Tag
// --------------------------------------------------------------------------

/// A client-chosen command correlator: non-empty, tag characters only.
#[derive(Debug, Clone, PartialEq, Eq)]
pub struct Tag {
    bytes: Vec<u8>,
}

impl View for Tag {
    type V = Seq<u8>;

    closed spec fn view(&self) -> Seq<u8> {
        self.bytes@
    }
}

impl Tag {
    pub open spec fn is_valid(s: Seq<u8>) -> bool {
        s.len() > 0 && all_tag_chars(s)
    }

    pub open spec fn wf(&self) -> bool {
        Self::is_valid(self@)
    }

    pub fn new(bytes: Vec<u8>) -> (r: Result<Tag, ValidationError>)
        ensures
            r is Ok <==> Self::is_valid(bytes@),
            r matches Ok(t) ==> t@ == bytes@,
            bytes@.len() == 0 ==> r == Err::<Tag, ValidationError>(ValidationError::Empty),
            r is Err && bytes@.len() > 0 ==> r == Err::<Tag, ValidationError>(
                ValidationError::DisallowedByte,
            ),
    {
        if bytes.len() == 0 {
            return Err(ValidationError::Empty);
        }
        let mut i: usize = 0;
        while i < bytes.len()
            invariant
                0 <= i <= bytes.len(),
                forall|j: int| 0 <= j < i ==> is_tag_char(bytes@[j]),
            decreases bytes.len() - i,
        {
            if !tag_char(bytes[i]) {
                return Err(ValidationError::DisallowedByte);
            }
            i += 1;
        }
        Ok(Tag { bytes })
    }

    pub fn as_bytes(&self) -> (r: &Vec<u8>)
        ensures
            r@ == self@,
    {
        &self.bytes
    }

    pub open spec fn encoded(&self) -> Seq<u8> {
        self@
    }

    pub fn encode(&self, out: &mut Vec<u8>)
        ensures
            final(out)@ == old(out)@ + self.encoded(),
    {
        extend_bytes(out, self.bytes.as_slice());
    }
}

// --------------------------------------------------------------------------
// Quoted
// --------------------------------------------------------------------------

/// A double-quoted string; CR, LF, `"` and `\` cannot appear in it
/// (content that needs them must use a literal instead).
#[derive(Debug, Clone, PartialEq, Eq)]
pub struct Quoted {
    bytes: Vec<u8>,
}

impl View for Quoted {
    type V = Seq<u8>;

    closed spec fn view(&self) -> Seq<u8> {
        self.bytes@
    }
}

impl Quoted {
    /// May be empty; every byte must be representable unescaped.
    pub open spec fn is_valid(s: Seq<u8>) -> bool {
        all_quoted_chars(s)
    }

    pub open spec fn wf(&self) -> bool {
        Self::is_valid(self@)
    }

    pub fn new(bytes: Vec<u8>) -> (r: Result<Quoted, ValidationError>)
        ensures
            r is Ok <==> Self::is_valid(bytes@),
            r matches Ok(q) ==> q@ == bytes@,
            r is Err ==> r == Err::<Quoted, ValidationError>(ValidationError::DisallowedByte),
    {
        let mut i: usize = 0;
        while i < bytes.len()
            invariant
                0 <= i <= bytes.len(),
                forall|j: int| 0 <= j < i ==> is_quoted_char(bytes@[j]),
            decreases bytes.len() - i,
        {
            if !quoted_char(bytes[i]) {
                return Err(ValidationError::DisallowedByte);
            }
            i += 1;
        }
        Ok(Quoted { bytes })
    }

    pub fn as_bytes(&self) -> (r: &Vec<u8>)
        ensures
            r@ == self@,
    {
        &self.bytes
    }

    /// The wire form: the content between two double quotes.
    pub open spec fn encoded(&self) -> Seq<u8> {
        seq![0x22u8] + self@ + seq![0x22u8]
    }

    pub fn encode(&self, out: &mut Vec<u8>)
        ensures
            final(out)@ == old(out)@ + self.encoded(),
    {
        out.push(0x22);
        extend_bytes(out, self.bytes.as_slice());
        out.push(0x22);
        assert(out@ =~= old(out)@ + self.encoded());
    }
}

// --------------------------------------------------------------------------
// Literal
// --------------------------------------------------------------------------

/// A length-prefixed raw byte string; any content is allowed.
///
/// A non-synchronizing literal (the literal extension) skips the
/// continuation round trip; it is announced as `{n+}` instead of `{n}`.
#[derive(Debug, Clone, PartialEq, Eq)]
pub struct Literal {
    data: Vec<u8>,
    sync: bool,
}

impl View for Literal {
    type V = Seq<u8>;

    closed spec fn view(&self) -> Seq<u8> {
        self.data@
    }
}

impl Literal {
    pub closed spec fn is_sync(&self) -> bool {
        self.sync
    }

    /// Accepts any byte content, including NUL and raw CR/LF.
    pub fn new(data: Vec<u8>) -> (r: Literal)
        ensures
            r@ == data@,
            r.is_sync(),
    {
        Literal { data, sync: true }
    }

    /// A non-synchronizing literal with the given content.
    pub fn new_non_sync(data: Vec<u8>) -> (r: Literal)
        ensures
            r@ == data@,
            !r.is_sync(),
    {
        Literal { data, sync: false }
    }

    pub fn as_bytes(&self) -> (r: &Vec<u8>)
        ensures
            r@ == self@,
    {
        &self.data
    }

    pub fn sync(&self) -> (r: bool)
        ensures
            r == self.is_sync(),
    {
        self.sync
    }

    /// The wire form: `{n}` (or `{n+}`) CRLF followed by exactly n octets.
    pub open spec fn encoded(&self) -> Seq<u8> {
        seq![0x7bu8] + dec_digits(self@.len()) + (if self.is_sync() {
            Seq::<u8>::empty()
        } else {
            seq![0x2bu8]
        }) + seq![0x7du8, 0x0du8, 0x0au8] + self@
    }

    pub fn encode(&self, out: &mut Vec<u8>)
        ensures
            final(out)@ == old(out)@ + self.encoded(),
    {
        out.push(0x7b);
        let n: usize = self.data.len();
        encode_number_usize(n, out);
        if !self.sync {
            out.push(0x2b);
        }
        out.push(0x7d);
        out.push(0x0d);
        out.push(0x0a);
        extend_bytes(out, self.data.as_slice());
        assert(out@ =~= old(out)@ + self.encoded());
    }
}

/// Writes the decimal representation of a `usize` length.
pub fn encode_number_usize(n: usize, out: &mut Vec<u8>)
    ensures
        final(out)@ == old(out)@ + dec_digits(n as nat),
    decreases n,
{
    if n < 10 {
        out.push((0x30 + n) as u8);
        assert(out@ =~= old(out)@ + dec_digits(n as nat));
    } else {
        encode_number_usize(n / 10, out);
        out.push((0x30 + (n % 10)) as u8);
        assert(out@ =~= old(out)@ + dec_digits(n as nat));
    }
}

/// The parts joined with the separator between neighbours.
pub open spec fn joined(parts: Seq<Seq<u8>>, sep: Seq<u8>) -> Seq<u8>
    decreases parts.len(),
{
    if parts.len() == 0 {
        Seq::empty()
    } else if parts.len() == 1 {
        parts[0]
    } else {
        parts[0] + sep + joined(parts.drop_first(), sep)
    }
}

/// Joining grows from the right: appending one more part appends one
/// separator and that part.
pub proof fn lemma_joined_push(parts: Seq<Seq<u8>>, p: Seq<u8>, sep: Seq<u8>)
    ensures
        parts.len() == 0 ==> joined(parts.push(p), sep) == p,
        parts.len() > 0 ==> joined(parts.push(p), sep) == joined(parts, sep) + sep + p,
    decreases parts.len(),
{
    let w = parts.push(p);
    if parts.len() == 0 {
        assert(w[0] == p);
    } else if parts.len() == 1 {
        assert(w.drop_first() =~= seq![p]);
        assert(joined(seq![p], sep) == p);
        assert(joined(w, sep) == w[0] + sep + joined(w.drop_first(), sep));
    } else {
        lemma_joined_push(parts.drop_first(), p, sep);
        assert(w.drop_first() =~= parts.drop_first().push(p));
        assert(joined(w, sep) == w[0] + sep + (joined(parts.drop_first(), sep) + sep + p));
        assert(w[0] + sep + (joined(parts.drop_first(), sep) + sep + p) =~= (parts[0] + sep
            + joined(parts.drop_first(), sep)) + sep + p);
    }
}

// --------------------------------------------------------------------------
// IString, NString, AString
// --------------------------------------------------------------------------

/// A quoted-or-literal string, chosen by content: quoting is used unless the
/// content holds a byte that a quoted string cannot represent.
#[derive(Debug, Clone, PartialEq, Eq)]
pub enum IString {
    Quoted(Quoted),
    Literal(Literal),
}

impl View for IString {
    type V = Seq<u8>;

    open spec fn view(&self) -> Seq<u8> {
        match self {
            IString::Quoted(q) => q@,
            IString::Literal(l) => l@,
        }
    }
}

impl IString {
    pub open spec fn wf(&self) -> bool {
        match self {
            IString::Quoted(q) => q.wf(),
            IString::Literal(l) => true,
        }
    }

    /// Wraps arbitrary content: a quoted string when every byte can stand in
    /// one, otherwise a (synchronizing) literal.  Never fails.
    pub fn from_bytes(bytes: Vec<u8>) -> (r: IString)
        ensures
            r@ == bytes@,
            r.wf(),
            all_quoted_chars(bytes@) ==> r is Quoted,
            !all_quoted_chars(bytes@) ==> r is Literal,
    {
        let mut ok = true;
        let mut i: usize = 0;
        while i < bytes.len()
            invariant
                0 <= i <= bytes.len(),
                ok == (forall|j: int| 0 <= j < i ==> is_quoted_char(bytes@[j])),
            decreases bytes.len() - i,
        {
            if !quoted_char(bytes[i]) {
                ok = false;
            }
            i += 1;
        }
        if ok {
            match Quoted::new(bytes) {
                Ok(q) => IString::Quoted(q),
                Err(_) => {
                    // unreachable: every byte was checked above
                    IString::Literal(Literal::new(Vec::new()))
                },
            }
        } else {
            IString::Literal(Literal::new(bytes))
        }
    }

    pub open spec fn encoded(&self) -> Seq<u8> {
        match self {
            IString::Quoted(q) => q.encoded(),
            IString::Literal(l) => l.encoded(),
        }
    }

    pub fn encode(&self, out: &mut Vec<u8>)
        ensures
            final(out)@ == old(out)@ + self.encoded(),
    {
        match self {
            IString::Quoted(q) => q.encode(out),
            IString::Literal(l) => l.encode(out),
        }
    }
}

/// A nullable string: either the `NIL` marker or an [`IString`].
#[derive(Debug, Clone, PartialEq, Eq)]
pub struct NString(pub Option<IString>);

impl View for NString {
    type V = Option<Seq<u8>>;

    open spec fn view(&self) -> Option<Seq<u8>> {
        match self.0 {
            Some(s) => Some(s@),
            None => None,
        }
    }
}

impl NString {
    pub open spec fn wf(&self) -> bool {
        match self.0 {
            Some(s) => s.wf(),
            None => true,
        }
    }

    /// The null value, rendered `NIL` on the wire.
    pub fn nil() -> (r: NString)
        ensures
            r@ is None,
            r.wf(),
    {
        NString(None)
    }

    /// Wraps arbitrary content, picking quoted or literal form by content.
    pub fn from_bytes(bytes: Vec<u8>) -> (r: NString)
        ensures
            r@ == Some(bytes@),
            r.wf(),
    {
        NString(Some(IString::from_bytes(bytes)))
    }

    pub open spec fn encoded(&self) -> Seq<u8> {
        match self.0 {
            Some(s) => s.encoded(),
            None => seq![0x4eu8, 0x49u8, 0x4cu8],
        }
    }

    pub fn encode(&self, out: &mut Vec<u8>)
        ensures
            final(out)@ == old(out)@ + self.encoded(),
    {
        match &self.0 {
            Some(s) => s.encode(out),
            None => {
                out.push(0x4e);
                out.push(0x49);
                out.push(0x4c);
                assert(final(out)@ =~= old(out)@ + self.encoded());
            },
        }
    }
}

/// An atom-or-string, chosen by content: the bare atom form is used when the
/// content is a valid extended atom, otherwise a quoted/literal string.
#[derive(Debug, Clone, PartialEq, Eq)]
pub enum AString {
    Atom(AtomExt),
    String(IString),
}

impl View for AString {
    type V = Seq<u8>;

    open spec fn view(&self) -> Seq<u8> {
        match self {
            AString::Atom(a) => a@,
            AString::String(s) => s@,
        }
    }
}

impl AString {
    /// The content bytes, whatever the representation.
    pub fn as_bytes(&self) -> (r: &Vec<u8>)
        ensures
            r@ == self@,
    {
        match self {
            AString::Atom(a) => a.as_bytes(),
            AString::String(IString::Quoted(q)) => q.as_bytes(),
            AString::String(IString::Literal(l)) => l.as_bytes(),
        }
    }

    pub open spec fn wf(&self) -> bool {
        match self {
            AString::Atom(a) => a.wf(),
            AString::String(s) => s.wf(),
        }
    }

    /// Wraps arbitrary content in the cheapest legal representation.
    /// Never fails.
    pub fn from_bytes(bytes: Vec<u8>) -> (r: AString)
        ensures
            r@ == bytes@,
            r.wf(),
            AtomExt::is_valid(bytes@) ==> r is Atom,
    {
        let mut ok = bytes.len() > 0;
        let mut i: usize = 0;
        while i < bytes.len()
            invariant
                0 <= i <= bytes.len(),
                ok == (bytes@.len() > 0 && forall|j: int| 0 <= j < i ==> is_astring_char(
                    bytes@[j],
                )),
            decreases bytes.len() - i,
        {
            if !astring_char(bytes[i]) {
                ok = false;
            }
            i += 1;
        }
        if ok {
            match AtomExt::new(bytes) {
                Ok(a) => AString::Atom(a),
                Err(_) => {
                    // unreachable: validity was checked above
                    AString::String(IString::from_bytes(Vec::new()))
                },
            }
        } else {
            AString::String(IString::from_bytes(bytes))
        }
    }

    pub open spec fn encoded(&self) -> Seq<u8> {
        match self {
            AString::Atom(a) => a.encoded(),
            AString::String(s) => s.encoded(),
        }
    }

    pub fn encode(&self, out: &mut Vec<u8>)
        ensures
            final(out)@ == old(out)@ + self.encoded(),
    {
        match self {
            AString::Atom(a) => a.encode(out),
            AString::String(s) => s.encode(out),
        }
    }
}

// --------------------------------------------------------------------------
// NonEmptyVec
// --------------------------------------------------------------------------

/// A list that the grammar forbids being empty (flag lists, search-key
/// conjunctions): length is at least one, established at construction.
#[derive(Debug, Clone, PartialEq, Eq)]
pub struct NonEmptyVec<T> {
    items: Vec<T>,
}

impl<T> View for NonEmptyVec<T> {
    type V = Seq<T>;

    closed spec fn view(&self) -> Seq<T> {
        self.items@
    }
}

impl<T> NonEmptyVec<T> {
    pub open spec fn wf(&self) -> bool {
        self@.len() > 0
    }

    /// Rejects an empty list.
    pub fn new(items: Vec<T>) -> (r: Result<NonEmptyVec<T>, ValidationError>)
        ensures
            r is Ok <==> items@.len() > 0,
            r matches Ok(v) ==> v@ == items@ && v.wf(),
            r is Err ==> r == Err::<NonEmptyVec<T>, ValidationError>(ValidationError::Empty),
    {
        if items.len() == 0 {
            Err(ValidationError::Empty)
        } else {
            Ok(NonEmptyVec { items })
        }
    }

    /// A one-element list.
    pub fn single(item: T) -> (r: NonEmptyVec<T>)
        ensures
            r@ =~= seq![item],
            r.wf(),
    {
        let mut items = Vec::new();
        items.push(item);
        NonEmptyVec { items }
    }

    pub fn as_vec(&self) -> (r: &Vec<T>)
        ensures
            r@ == self@,
    {
        &self.items
    }

    pub fn len(&self) -> (r: usize)
        ensures
            r == self@.len(),
    {
        self.items.len()
    }
}

/// A non-empty list is larger, in the termination order, than its view;
/// recursive types that hold one recurse through this.
pub proof fn lemma_nev_decreases<T>(v: NonEmptyVec<T>)
    ensures
        decreases_to!(v => v@),
{
    assert(decreases_to!(v => v.items));
    assert(decreases_to!(v.items => v.items@));
}

} // verus!
