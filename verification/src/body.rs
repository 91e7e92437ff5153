//! The recursive MIME body-structure tree returned by the BODYSTRUCTURE
//! fetch item, and the strictly prefix-dependent extension-field chains of
//! its single-part and multi-part nodes.

use vstd::prelude::*;
use crate::primitive::{IString, NString, joined, lemma_joined_push, encode_number, dec_digits};
use crate::envelope::Envelope;

verus! {

// --------------------------------------------------------------------------
// List helpers: `NIL` stands for an absent or empty list on the wire
// --------------------------------------------------------------------------

/// An attribute/value list renders as `NIL` when empty, else as a
/// parenthesized, space-separated list of alternating attributes and values.
pub open spec fn encoded_attr_list(l: Seq<(IString, IString)>) -> Seq<u8> {
    if l.len() == 0 {
        seq![0x4eu8, 0x49u8, 0x4cu8]
    } else {
        seq![0x28u8] + joined(
            l.map_values(|p: (IString, IString)| p.0.encoded() + seq![0x20u8] + p.1.encoded()),
            seq![0x20u8],
        ) + seq![0x29u8]
    }
}

pub fn encode_attr_list(l: &Vec<(IString, IString)>, out: &mut Vec<u8>)
    ensures
        final(out)@ == old(out)@ + encoded_attr_list(l@),
{
    if l.len() == 0 {
        out.push(0x4e);
        out.push(0x49);
        out.push(0x4c);
        assert(final(out)@ =~= old(out)@ + encoded_attr_list(l@));
        return ;
    }
    let ghost parts = l@.map_values(
        |p: (IString, IString)| p.0.encoded() + seq![0x20u8] + p.1.encoded(),
    );
    out.push(0x28);
    let mut i: usize = 0;
    while i < l.len()
        invariant
            0 <= i <= l@.len(),
            parts == l@.map_values(
                |p: (IString, IString)| p.0.encoded() + seq![0x20u8] + p.1.encoded(),
            ),
            out@ == old(out)@ + seq![0x28u8] + joined(parts.subrange(0, i as int), seq![0x20u8]),
        decreases l@.len() - i,
    {
        if i > 0 {
            out.push(0x20);
        }
        l[i].0.encode(out);
        out.push(0x20);
        l[i].1.encode(out);
        proof {
            let pre = parts.subrange(0, i as int);
            assert(parts.subrange(0, i + 1) =~= pre.push(parts[i as int]));
            lemma_joined_push(pre, parts[i as int], seq![0x20u8]);
            assert(out@ =~= old(out)@ + seq![0x28u8] + joined(
                parts.subrange(0, i + 1),
                seq![0x20u8],
            ));
        }
        i += 1;
    }
    out.push(0x29);
    proof {
        assert(parts.subrange(0, parts.len() as int) =~= parts);
        assert(final(out)@ =~= old(out)@ + encoded_attr_list(l@));
    }
}

/// A string list renders as `NIL` when empty, else parenthesized and
/// space-separated.
pub open spec fn encoded_string_list(l: Seq<IString>) -> Seq<u8> {
    if l.len() == 0 {
        seq![0x4eu8, 0x49u8, 0x4cu8]
    } else {
        seq![0x28u8] + joined(l.map_values(|s: IString| s.encoded()), seq![0x20u8]) + seq![0x29u8]
    }
}

pub fn encode_string_list(l: &Vec<IString>, out: &mut Vec<u8>)
    ensures
        final(out)@ == old(out)@ + encoded_string_list(l@),
{
    if l.len() == 0 {
        out.push(0x4e);
        out.push(0x49);
        out.push(0x4c);
        assert(final(out)@ =~= old(out)@ + encoded_string_list(l@));
        return ;
    }
    let ghost parts = l@.map_values(|s: IString| s.encoded());
    out.push(0x28);
    let mut i: usize = 0;
    while i < l.len()
        invariant
            0 <= i <= l@.len(),
            parts == l@.map_values(|s: IString| s.encoded()),
            out@ == old(out)@ + seq![0x28u8] + joined(parts.subrange(0, i as int), seq![0x20u8]),
        decreases l@.len() - i,
    {
        if i > 0 {
            out.push(0x20);
        }
        l[i].encode(out);
        proof {
            let pre = parts.subrange(0, i as int);
            assert(parts.subrange(0, i + 1) =~= pre.push(parts[i as int]));
            lemma_joined_push(pre, parts[i as int], seq![0x20u8]);
            assert(out@ =~= old(out)@ + seq![0x28u8] + joined(
                parts.subrange(0, i + 1),
                seq![0x20u8],
            ));
        }
        i += 1;
    }
    out.push(0x29);
    proof {
        assert(parts.subrange(0, parts.len() as int) =~= parts);
        assert(final(out)@ =~= old(out)@ + encoded_string_list(l@));
    }
}

// --------------------------------------------------------------------------
// Extension-data chains
// --------------------------------------------------------------------------

/// A body disposition: `NIL`, or a parenthesized disposition type with its
/// attribute/value pairs.
pub open spec fn encoded_disposition(d: Option<(IString, Vec<(IString, IString)>)>) -> Seq<u8> {
    match d {
        None => seq![0x4eu8, 0x49u8, 0x4cu8],
        Some((s, params)) => seq![0x28u8] + s.encoded() + seq![0x20u8] + encoded_attr_list(params@)
            + seq![0x29u8],
    }
}

pub fn encode_disposition(d: &Option<(IString, Vec<(IString, IString)>)>, out: &mut Vec<u8>)
    ensures
        final(out)@ == old(out)@ + encoded_disposition(*d),
{
    match d {
        None => {
            out.push(0x4e);
            out.push(0x49);
            out.push(0x4c);
            assert(final(out)@ =~= old(out)@ + encoded_disposition(*d));
        },
        Some((s, params)) => {
            out.push(0x28);
            s.encode(out);
            out.push(0x20);
            encode_attr_list(params, out);
            out.push(0x29);
            assert(final(out)@ =~= old(out)@ + encoded_disposition(*d));
        },
    }
}

/// The trailing extension fields form a strictly prefix-dependent chain:
/// emission walks front to back and stops at the first absent field, even
/// if a later field holds data.  The trailing unparsed extension bytes
/// carry their own leading separator and are only emitted when every named
/// field before them is present.
pub open spec fn encoded_ext_chain(
    disposition: Option<Option<(IString, Vec<(IString, IString)>)>>,
    language: Option<Vec<IString>>,
    location: Option<NString>,
    extension: Vec<u8>,
) -> Seq<u8> {
    match disposition {
        None => Seq::empty(),
        Some(d) => seq![0x20u8] + encoded_disposition(d) + match language {
            None => Seq::empty(),
            Some(lang) => seq![0x20u8] + encoded_string_list(lang@) + match location {
                None => Seq::empty(),
                Some(loc) => seq![0x20u8] + loc.encoded() + extension@,
            },
        },
    }
}

pub fn encode_ext_chain(
    disposition: &Option<Option<(IString, Vec<(IString, IString)>)>>,
    language: &Option<Vec<IString>>,
    location: &Option<NString>,
    extension: &Vec<u8>,
    out: &mut Vec<u8>,
)
    ensures
        final(out)@ == old(out)@ + encoded_ext_chain(*disposition, *language, *location, *extension),
{
    match disposition {
        None => {
            assert(final(out)@ =~= old(out)@ + encoded_ext_chain(
                *disposition,
                *language,
                *location,
                *extension,
            ));
        },
        Some(d) => {
            out.push(0x20);
            encode_disposition(d, out);
            match language {
                None => {},
                Some(lang) => {
                    out.push(0x20);
                    encode_string_list(lang, out);
                    match location {
                        None => {},
                        Some(loc) => {
                            out.push(0x20);
                            loc.encode(out);
                            crate::primitive::extend_bytes(out, extension.as_slice());
                        },
                    }
                },
            }
            assert(final(out)@ =~= old(out)@ + encoded_ext_chain(
                *disposition,
                *language,
                *location,
                *extension,
            ));
        },
    }
}

/// The chain never emits a later field without all earlier ones: each
/// absent link ends the emission there, whatever the later fields hold.
pub proof fn lemma_ext_chain_prefix_invariant(
    disposition: Option<Option<(IString, Vec<(IString, IString)>)>>,
    language: Option<Vec<IString>>,
    location: Option<NString>,
    extension: Vec<u8>,
)
    ensures
        disposition is None ==> encoded_ext_chain(disposition, language, location, extension)
            == Seq::<u8>::empty(),
        disposition matches Some(d) ==> (language is None ==> encoded_ext_chain(
            disposition,
            language,
            location,
            extension,
        ) == seq![0x20u8] + encoded_disposition(d)),
        disposition matches Some(d) ==> (language matches Some(lg) ==> (location is None
            ==> encoded_ext_chain(disposition, language, location, extension) == seq![0x20u8]
            + encoded_disposition(d) + seq![0x20u8] + encoded_string_list(lg@))),
{
    match disposition {
        None => {},
        Some(d) => {
            match language {
                None => {
                    assert(seq![0x20u8] + encoded_disposition(d) + Seq::<u8>::empty() =~= seq![
                        0x20u8,
                    ] + encoded_disposition(d));
                },
                Some(lang) => {
                    if location is None {
                        assert(seq![0x20u8] + encoded_disposition(d) + (seq![0x20u8]
                            + encoded_string_list(lang@) + Seq::<u8>::empty()) =~= seq![0x20u8]
                            + encoded_disposition(d) + seq![0x20u8] + encoded_string_list(lang@));
                    }
                },
            }
        },
    }
}

// --------------------------------------------------------------------------
// The body-structure data model
// --------------------------------------------------------------------------

/// The basic fields of a non-multipart body part.
#[derive(Debug, Clone, PartialEq, Eq)]
pub struct BasicFields {
    /// List of attribute/value pairs.
    pub parameter_list: Vec<(IString, IString)>,
    /// Content id.
    pub id: NString,
    /// Content description.
    pub description: NString,
    /// Content transfer encoding.
    pub content_transfer_encoding: IString,
    /// Size of the body, in octets of its transfer encoding.
    pub size: u32,
}

impl BasicFields {
    pub open spec fn wf(&self) -> bool {
        &&& forall|i: int|
            0 <= i < self.parameter_list@.len() ==> self.parameter_list@[i].0.wf()
                && self.parameter_list@[i].1.wf()
        &&& self.id.wf()
        &&& self.description.wf()
        &&& self.content_transfer_encoding.wf()
    }

    /// The wire form: parameter list, id, description, transfer encoding
    /// and size, space-separated.
    pub open spec fn encoded(&self) -> Seq<u8> {
        encoded_attr_list(self.parameter_list@) + seq![0x20u8] + self.id.encoded() + seq![0x20u8]
            + self.description.encoded() + seq![0x20u8] + self.content_transfer_encoding.encoded()
            + seq![0x20u8] + dec_digits(self.size as nat)
    }

    pub fn encode(&self, out: &mut Vec<u8>)
        ensures
            final(out)@ == old(out)@ + self.encoded(),
    {
        encode_attr_list(&self.parameter_list, out);
        out.push(0x20);
        self.id.encode(out);
        out.push(0x20);
        self.description.encode(out);
        out.push(0x20);
        self.content_transfer_encoding.encode(out);
        out.push(0x20);
        encode_number(self.size, out);
        assert(final(out)@ =~= old(out)@ + self.encoded());
    }
}

/// The fields that depend on a part's media type.
#[derive(Debug, PartialEq, Eq)]
pub enum SpecificFields {
    /// Any single part that is neither `MESSAGE/RFC822` nor `TEXT`.
    Basic {
        /// The content media type name.
        type_: IString,
        /// The content subtype name.
        subtype: IString,
    },
    /// A `MESSAGE/RFC822` part: the encapsulated message's envelope, its
    /// body structure, and its length in text lines.
    Message {
        envelope: Envelope,
        body_structure: Box<BodyStructure>,
        number_of_lines: u32,
    },
    /// A `TEXT` part: its subtype and its length in text lines.
    Text { subtype: IString, number_of_lines: u32 },
}

/// One non-multipart body part: its basic fields and its type-specific
/// fields.
#[derive(Debug, PartialEq, Eq)]
pub struct Body {
    /// Basic fields.
    pub basic: BasicFields,
    /// Type-specific fields.
    pub specific: SpecificFields,
}

/// The `"MESSAGE" "RFC822" ` token pair.
pub open spec fn lit_message_rfc822() -> Seq<u8> {
    seq![
        0x22u8, 0x4du8, 0x45u8, 0x53u8, 0x53u8, 0x41u8, 0x47u8, 0x45u8, 0x22u8, 0x20u8, 0x22u8,
        0x52u8, 0x46u8, 0x43u8, 0x38u8, 0x32u8, 0x32u8, 0x22u8, 0x20u8,
    ]
}

/// The `"TEXT" ` token.
pub open spec fn lit_text() -> Seq<u8> {
    seq![0x22u8, 0x54u8, 0x45u8, 0x58u8, 0x54u8, 0x22u8, 0x20u8]
}

impl Body {
    pub open spec fn wf(&self) -> bool
        decreases self,
    {
        &&& self.basic.wf()
        &&& match self.specific {
            SpecificFields::Basic { type_, subtype } => type_.wf() && subtype.wf(),
            SpecificFields::Message { envelope, body_structure, number_of_lines } => envelope.wf()
                && body_structure.wf(),
            SpecificFields::Text { subtype, number_of_lines } => subtype.wf(),
        }
    }

    /// The wire form of the part's fields, without the enclosing
    /// parentheses (those belong to [`BodyStructure`]).
    pub open spec fn encoded(&self) -> Seq<u8>
        decreases self,
    {
        match self.specific {
            SpecificFields::Basic { type_, subtype } => type_.encoded() + seq![0x20u8]
                + subtype.encoded() + seq![0x20u8] + self.basic.encoded(),
            SpecificFields::Message { envelope, body_structure, number_of_lines } =>
                lit_message_rfc822() + self.basic.encoded() + seq![0x20u8] + envelope.encoded()
                + seq![0x20u8] + body_structure.encoded() + seq![0x20u8] + dec_digits(
                number_of_lines as nat,
            ),
            SpecificFields::Text { subtype, number_of_lines } => lit_text() + subtype.encoded()
                + seq![0x20u8] + self.basic.encoded() + seq![0x20u8] + dec_digits(
                number_of_lines as nat,
            ),
        }
    }

    #[verifier::rlimit(60)]
    pub fn encode(&self, out: &mut Vec<u8>)
        ensures
            final(out)@ == old(out)@ + self.encoded(),
        decreases self,
    {
        match &self.specific {
            SpecificFields::Basic { type_, subtype } => {
                type_.encode(out);
                out.push(0x20);
                subtype.encode(out);
                out.push(0x20);
                self.basic.encode(out);
                assert(final(out)@ =~= old(out)@ + self.encoded());
            },
            SpecificFields::Message { envelope, body_structure, number_of_lines } => {
                let w: [u8; 19] = [
                    0x22, 0x4d, 0x45, 0x53, 0x53, 0x41, 0x47, 0x45, 0x22, 0x20, 0x22, 0x52, 0x46,
                    0x43, 0x38, 0x32, 0x32, 0x22, 0x20,
                ];
                proof {
                    assert(w@ =~= lit_message_rfc822());
                }
                crate::primitive::extend_bytes(out, w.as_slice());
                self.basic.encode(out);
                out.push(0x20);
                envelope.encode(out);
                out.push(0x20);
                body_structure.encode(out);
                out.push(0x20);
                encode_number(*number_of_lines, out);
                assert(final(out)@ =~= old(out)@ + self.encoded());
            },
            SpecificFields::Text { subtype, number_of_lines } => {
                let w: [u8; 7] = [0x22, 0x54, 0x45, 0x58, 0x54, 0x22, 0x20];
                proof {
                    assert(w@ =~= lit_text());
                }
                crate::primitive::extend_bytes(out, w.as_slice());
                subtype.encode(out);
                out.push(0x20);
                self.basic.encode(out);
                out.push(0x20);
                encode_number(*number_of_lines, out);
                assert(final(out)@ =~= old(out)@ + self.encoded());
            },
        }
    }
}

/// The extension data of a non-multipart body part, in wire order.
#[derive(Debug, Clone, PartialEq, Eq)]
pub struct SinglePartExtensionData {
    /// The body MD5 value.
    pub md5: NString,
    /// The body disposition: absent, `NIL`, or a type with parameters.
    pub disposition: Option<Option<(IString, Vec<(IString, IString)>)>>,
    /// The body language values.
    pub language: Option<Vec<IString>>,
    /// The body content URI.
    pub location: Option<NString>,
    /// Trailing unparsed extension bytes, kept verbatim (they carry their
    /// own leading separator).
    pub extension: Vec<u8>,
}

impl SinglePartExtensionData {
    pub open spec fn wf(&self) -> bool {
        &&& self.md5.wf()
        &&& match self.disposition {
            Some(Some((s, params))) => s.wf() && forall|i: int|
                0 <= i < params@.len() ==> (#[trigger] params@[i]).0.wf() && params@[i].1.wf(),
            _ => true,
        }
        &&& match self.language {
            Some(lang) => forall|i: int| 0 <= i < lang@.len() ==> (#[trigger] lang@[i]).wf(),
            None => true,
        }
        &&& match self.location {
            Some(loc) => loc.wf(),
            None => true,
        }
    }

    /// The wire form: the MD5 field, then the prefix-dependent chain.
    pub open spec fn encoded(&self) -> Seq<u8> {
        self.md5.encoded() + encoded_ext_chain(
            self.disposition,
            self.language,
            self.location,
            self.extension,
        )
    }

    pub fn encode(&self, out: &mut Vec<u8>)
        ensures
            final(out)@ == old(out)@ + self.encoded(),
    {
        self.md5.encode(out);
        encode_ext_chain(&self.disposition, &self.language, &self.location, &self.extension, out);
        assert(final(out)@ =~= old(out)@ + self.encoded());
    }
}

/// The extension data of a multipart body part, in wire order.
#[derive(Debug, Clone, PartialEq, Eq)]
pub struct MultiPartExtensionData {
    /// A parenthesized list of attribute/value pairs.
    pub parameter_list: Vec<(IString, IString)>,
    /// The body disposition: absent, `NIL`, or a type with parameters.
    pub disposition: Option<Option<(IString, Vec<(IString, IString)>)>>,
    /// The body language values.
    pub language: Option<Vec<IString>>,
    /// The body content URI.
    pub location: Option<NString>,
    /// Trailing unparsed extension bytes, kept verbatim.
    pub extension: Vec<u8>,
}

impl MultiPartExtensionData {
    pub open spec fn wf(&self) -> bool {
        &&& forall|i: int|
            0 <= i < self.parameter_list@.len() ==> (#[trigger] self.parameter_list@[i]).0.wf()
                && self.parameter_list@[i].1.wf()
        &&& match self.disposition {
            Some(Some((s, params))) => s.wf() && forall|i: int|
                0 <= i < params@.len() ==> (#[trigger] params@[i]).0.wf() && params@[i].1.wf(),
            _ => true,
        }
        &&& match self.language {
            Some(lang) => forall|i: int| 0 <= i < lang@.len() ==> (#[trigger] lang@[i]).wf(),
            None => true,
        }
        &&& match self.location {
            Some(loc) => loc.wf(),
            None => true,
        }
    }

    /// The wire form: the parameter list, then the prefix-dependent chain.
    pub open spec fn encoded(&self) -> Seq<u8> {
        encoded_attr_list(self.parameter_list@) + encoded_ext_chain(
            self.disposition,
            self.language,
            self.location,
            self.extension,
        )
    }

    pub fn encode(&self, out: &mut Vec<u8>)
        ensures
            final(out)@ == old(out)@ + self.encoded(),
    {
        encode_attr_list(&self.parameter_list, out);
        encode_ext_chain(&self.disposition, &self.language, &self.location, &self.extension, out);
        assert(final(out)@ =~= old(out)@ + self.encoded());
    }
}

/// Emission of a single part's extension data stops at the first absent
/// chain link: an absent disposition leaves only the MD5 field on the
/// wire, whatever the later fields hold.
pub proof fn lemma_single_part_prefix_invariant(d: SinglePartExtensionData)
    ensures
        d.disposition is None ==> d.encoded() == d.md5.encoded(),
{
    if d.disposition is None {
        assert(d.md5.encoded() + Seq::<u8>::empty() =~= d.md5.encoded());
    }
}

/// The same for a multipart node, whose chain head is the parameter list.
pub proof fn lemma_multi_part_prefix_invariant(d: MultiPartExtensionData)
    ensures
        d.disposition is None ==> d.encoded() == encoded_attr_list(d.parameter_list@),
{
    if d.disposition is None {
        assert(encoded_attr_list(d.parameter_list@) + Seq::<u8>::empty() =~= encoded_attr_list(
            d.parameter_list@,
        ));
    }
}

/// A message's MIME part tree: one part, or nested parts with a multipart
/// subtype.  Children are owned exclusively by their parent.
#[derive(Debug, PartialEq, Eq)]
pub enum BodyStructure {
    /// A single part, with optional extension data.
    Single { body: Body, extension: Option<SinglePartExtensionData> },
    /// One or more nested body structures, the multipart subtype, and
    /// optional extension data.
    Multi {
        bodies: Vec<BodyStructure>,
        subtype: IString,
        extension_data: Option<MultiPartExtensionData>,
    },
}

/// The concatenation of the wire forms of the nested bodies.
pub open spec fn encoded_bodies(l: Seq<BodyStructure>) -> Seq<u8>
    decreases l,
{
    if l.len() == 0 {
        Seq::empty()
    } else {
        l[0].encoded() + encoded_bodies(l.drop_first())
    }
}

/// Appending one more body appends its wire form.
pub proof fn lemma_encoded_bodies_push(l: Seq<BodyStructure>, x: BodyStructure)
    ensures
        encoded_bodies(l.push(x)) == encoded_bodies(l) + x.encoded(),
    decreases l,
{
    let w = l.push(x);
    assert(encoded_bodies(Seq::<BodyStructure>::empty()) == Seq::<u8>::empty());
    if l.len() == 0 {
        assert(w[0] == x);
        assert(encoded_bodies(l) == Seq::<u8>::empty());
        assert(w.drop_first() =~= Seq::<BodyStructure>::empty());
        assert(x.encoded() + Seq::<u8>::empty() =~= x.encoded());
        assert(Seq::<u8>::empty() + x.encoded() =~= x.encoded());
    } else {
        lemma_encoded_bodies_push(l.drop_first(), x);
        assert(w.drop_first() =~= l.drop_first().push(x));
        assert(w[0] == l[0]);
        assert(l[0].encoded() + (encoded_bodies(l.drop_first()) + x.encoded()) =~= (l[0].encoded()
            + encoded_bodies(l.drop_first())) + x.encoded());
    }
}

impl BodyStructure {
    pub open spec fn wf(&self) -> bool
        decreases self,
    {
        match self {
            BodyStructure::Single { body, extension } => body.wf() && match extension {
                Some(e) => e.wf(),
                None => true,
            },
            BodyStructure::Multi { bodies, subtype, extension_data } => {
                &&& bodies@.len() > 0
                &&& forall|i: int| 0 <= i < bodies@.len() ==> (#[trigger] bodies@[i]).wf()
                &&& subtype.wf()
                &&& match extension_data {
                    Some(e) => e.wf(),
                    None => true,
                }
            },
        }
    }

    /// The wire form: a parenthesized single part, or parenthesized nested
    /// parts followed by the multipart subtype; extension data, when
    /// present, follows after a space.
    pub open spec fn encoded(&self) -> Seq<u8>
        decreases self,
    {
        match self {
            BodyStructure::Single { body, extension } => seq![0x28u8] + body.encoded() + (
            match extension {
                Some(e) => seq![0x20u8] + e.encoded(),
                None => Seq::empty(),
            }) + seq![0x29u8],
            BodyStructure::Multi { bodies, subtype, extension_data } => seq![0x28u8]
                + encoded_bodies(bodies@) + seq![0x20u8] + subtype.encoded() + (
            match extension_data {
                Some(e) => seq![0x20u8] + e.encoded(),
                None => Seq::empty(),
            }) + seq![0x29u8],
        }
    }

    #[verifier::rlimit(100)]
    pub fn encode(&self, out: &mut Vec<u8>)
        ensures
            final(out)@ == old(out)@ + self.encoded(),
        decreases self,
    {
        match self {
            BodyStructure::Single { body, extension } => {
                out.push(0x28);
                body.encode(out);
                match extension {
                    Some(e) => {
                        out.push(0x20);
                        e.encode(out);
                    },
                    None => {},
                }
                out.push(0x29);
                assert(final(out)@ =~= old(out)@ + self.encoded());
            },
            BodyStructure::Multi { bodies, subtype, extension_data } => {
                out.push(0x28);
                let mut i: usize = 0;
                proof {
                    assert(decreases_to!(*self => *bodies));
                }
                while i < bodies.len()
                    invariant
                        0 <= i <= bodies@.len(),
                        (decreases_to!(*self => *bodies)),
                        out@ == old(out)@ + seq![0x28u8] + encoded_bodies(
                            bodies@.subrange(0, i as int),
                        ),
                    decreases bodies@.len() - i,
                {
                    proof {
                        vstd::std_specs::vec::axiom_vec_index_decreases(*bodies, i as int);
                    }
                    bodies[i].encode(out);
                    proof {
                        let pre = bodies@.subrange(0, i as int);
                        assert(bodies@.subrange(0, i + 1) =~= pre.push(bodies@[i as int]));
                        lemma_encoded_bodies_push(pre, bodies@[i as int]);
                        assert(out@ =~= old(out)@ + seq![0x28u8] + encoded_bodies(
                            bodies@.subrange(0, i + 1),
                        ));
                    }
                    i += 1;
                }
                proof {
                    assert(bodies@.subrange(0, bodies@.len() as int) =~= bodies@);
                }
                out.push(0x20);
                subtype.encode(out);
                match extension_data {
                    Some(e) => {
                        out.push(0x20);
                        e.encode(out);
                    },
                    None => {},
                }
                out.push(0x29);
                assert(final(out)@ =~= old(out)@ + self.encoded());
            },
        }
    }
}

} // verus!
