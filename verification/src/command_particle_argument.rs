//! The `particle` argument: a particle type from the registry, then its
//! options as a compound when one follows, checked by the type's rule.

use vstd::prelude::*;
use vstd::utf8::decode_utf8;
use vstd::string::StringSliceAdditionalSpecFns;
use crate::text::{utf8, is_ascii_whitespace_byte, str_eq};
use crate::search::{scan_end, first_index_from, lemma_first_index_from};
use crate::string_reader::{lemma_cut_at_ascii, lemma_cut_after_ascii, advanced};
use crate::command_identifier_argument::{CommandIdentifierModel, IdentifierArgumentParseError, identifier_end, parse_identifier};
use crate::command_item_arguments::brace_close;
use crate::command_shared_suggestion_provider::{suggest_identifiers, resources_offered, id_parts};
use crate::arg_map::ArgMap;
pub use crate::string_reader::StringReaderModel;

verus! {

broadcast use vstd::utf8::encode_utf8_decode_utf8, vstd::utf8::encode_utf8_valid_utf8;

pub const PARTICLE_TYPE_REGISTRY: &'static str = "minecraft:particle_type";

/// What options a particle type takes: none, or a compound with a field.
pub enum ParticleOptionRule {
    NoFields,
    RequiresField(String),
}

/// A particle type of the registry: its identifier and its options rule.
pub struct ParticleTypeModel {
    id: CommandIdentifierModel,
    option_rule: ParticleOptionRule,
}

/// The options given with a particle: none, or the field names of a compound.
#[derive(Debug, PartialEq, Eq)]
pub enum ParticlePayloadModel {
    EmptyMap,
    Compound { fields: Vec<String> },
}

/// A particle and its options.
#[derive(Debug, PartialEq, Eq)]
pub struct ParticleOptionsModel {
    particle_id: CommandIdentifierModel,
    payload: ParticlePayloadModel,
}

#[derive(Debug, Clone, PartialEq, Eq)]
pub enum TagParseError {
    ExpectedOpeningBrace,
    UnclosedCompound,
    InvalidFieldName,
}

#[derive(Debug, Clone, PartialEq, Eq)]
pub enum ParticleOptionDecodeError {
    UnexpectedFields,
    MissingField(String),
}

#[derive(Debug, PartialEq, Eq)]
pub enum ParticleParseError {
    Identifier(IdentifierArgumentParseError),
    UnknownParticle { id: CommandIdentifierModel, cursor: usize },
    TagParser(TagParseError),
    InvalidOptions(ParticleOptionDecodeError),
}

/// The value of a payload: `None` for no options, else the field names.
pub open spec fn payload_view(p: ParticlePayloadModel) -> Option<Seq<Seq<char>>> {
    match p {
        ParticlePayloadModel::EmptyMap => None,
        ParticlePayloadModel::Compound { fields } => Some(texts(fields@)),
    }
}

pub open spec fn texts(v: Seq<String>) -> Seq<Seq<char>> {
    v.map_values(|s: String| s@)
}

impl ParticleTypeModel {
    pub closed spec fn id_view(&self) -> CommandIdentifierModel {
        self.id
    }

    /// The field that the options must hold, if any.
    pub closed spec fn required_field(&self) -> Option<Seq<char>> {
        match self.option_rule {
            ParticleOptionRule::NoFields => None,
            ParticleOptionRule::RequiresField(f) => Some(f@),
        }
    }

    /// A particle type that takes no options.
    pub fn simple(id: &str) -> (r: Self)
        requires
            parse_identifier(id.spec_bytes()) is Some,
        ensures
            r.id_view().parses_to(id.spec_bytes()),
            r.required_field() is None,
    {
        let id = match CommandIdentifierModel::parse(id) {
            Ok(id) => id,
            Err(_) => CommandIdentifierModel::of("minecraft", ""),
        };
        ParticleTypeModel { id, option_rule: ParticleOptionRule::NoFields }
    }

    /// A particle type whose options must hold the field.
    pub fn block_state(id: &str, required_key: &str) -> (r: Self)
        requires
            parse_identifier(id.spec_bytes()) is Some,
        ensures
            r.id_view().parses_to(id.spec_bytes()),
            r.required_field() == Some(required_key@),
    {
        let id = match CommandIdentifierModel::parse(id) {
            Ok(id) => id,
            Err(_) => CommandIdentifierModel::of("minecraft", ""),
        };
        ParticleTypeModel { id, option_rule: ParticleOptionRule::RequiresField(required_key.to_owned()) }
    }

    pub fn copy(&self) -> (r: Self)
        ensures
            r.id_view().same(&self.id_view()),
            r.required_field() == self.required_field(),
    {
        let option_rule = match &self.option_rule {
            ParticleOptionRule::NoFields => ParticleOptionRule::NoFields,
            ParticleOptionRule::RequiresField(f) => ParticleOptionRule::RequiresField(f.clone()),
        };
        ParticleTypeModel { id: self.id.copy(), option_rule }
    }

    /// Checks the options against the rule: a type without options takes no
    /// options or an empty compound; a type with a required field takes a
    /// compound that names it.
    fn decode(&self, payload: ParticlePayloadModel) -> (r: Result<ParticleOptionsModel, ParticleOptionDecodeError>)
        ensures
            match decoded(self.required_field(), payload_view(payload)) {
                Ok(()) => r matches Ok(o) && o.id_view().same(&self.id_view()) && o.payload_view() == payload_view(payload),
                Err(e) => r matches Err(x) && decode_error_view(x) == e,
            },
    {
        match &self.option_rule {
            ParticleOptionRule::NoFields => match &payload {
                ParticlePayloadModel::EmptyMap => Ok(ParticleOptionsModel { particle_id: self.id.copy(), payload }),
                ParticlePayloadModel::Compound { fields } => {
                    if fields.len() == 0 {
                        Ok(ParticleOptionsModel { particle_id: self.id.copy(), payload })
                    } else {
                        Err(ParticleOptionDecodeError::UnexpectedFields)
                    }
                },
            },
            ParticleOptionRule::RequiresField(required) => {
                let found = match &payload {
                    ParticlePayloadModel::EmptyMap => false,
                    ParticlePayloadModel::Compound { fields } => {
                        let mut i: usize = 0;
                        let mut hit = false;
                        while i < fields.len()
                            invariant
                                0 <= i <= fields@.len(),
                                !hit,
                                forall|k: int| 0 <= k < i ==> fields@[k]@ != required@,
                            decreases fields@.len() - i,
                        {
                            if str_eq(fields[i].as_str(), required.as_str()) {
                                assert(texts(fields@)[i as int] == required@);
                                hit = true;
                                break;
                            }
                            i = i + 1;
                        }
                        proof {
                            if !hit {
                                assert forall|k: int| 0 <= k < fields@.len() implies texts(fields@)[k] != required@ by {
                                    assert(texts(fields@)[k] == fields@[k]@);
                                }
                            }
                        }
                        hit
                    },
                };
                if found {
                    Ok(ParticleOptionsModel { particle_id: self.id.copy(), payload })
                } else {
                    Err(ParticleOptionDecodeError::MissingField(required.clone()))
                }
            },
        }
    }
}

/// How options fare against a rule (`None` for a type without options).
pub open spec fn decoded(required: Option<Seq<char>>, payload: Option<Seq<Seq<char>>>) -> Result<(), DecodeErrorView> {
    match required {
        None => match payload {
            None => Ok(()),
            Some(fields) => if fields.len() == 0 { Ok(()) } else { Err(DecodeErrorView::UnexpectedFields) },
        },
        Some(field) => match payload {
            Some(fields) => if fields.contains(field) { Ok(()) } else { Err(DecodeErrorView::MissingField(field)) },
            None => Err(DecodeErrorView::MissingField(field)),
        },
    }
}

pub enum DecodeErrorView {
    UnexpectedFields,
    MissingField(Seq<char>),
}

pub open spec fn decode_error_view(e: ParticleOptionDecodeError) -> DecodeErrorView {
    match e {
        ParticleOptionDecodeError::UnexpectedFields => DecodeErrorView::UnexpectedFields,
        ParticleOptionDecodeError::MissingField(f) => DecodeErrorView::MissingField(f@),
    }
}

impl ParticleOptionsModel {
    pub closed spec fn id_view(&self) -> CommandIdentifierModel {
        self.particle_id
    }

    pub closed spec fn payload_view(&self) -> Option<Seq<Seq<char>>> {
        payload_view(self.payload)
    }

    pub fn particle_id(&self) -> (r: &CommandIdentifierModel)
        ensures
            *r == self.id_view(),
    {
        &self.particle_id
    }

    pub fn payload(&self) -> (r: &ParticlePayloadModel)
        ensures
            payload_view(*r) == self.payload_view(),
    {
        &self.payload
    }

    pub fn copy(&self) -> (r: Self)
        ensures
            r.id_view().same(&self.id_view()),
            r.payload_view() == self.payload_view(),
    {
        let payload = match &self.payload {
            ParticlePayloadModel::EmptyMap => ParticlePayloadModel::EmptyMap,
            ParticlePayloadModel::Compound { fields } => {
                let mut out: Vec<String> = Vec::new();
                let mut i: usize = 0;
                while i < fields.len()
                    invariant
                        0 <= i <= fields@.len(),
                        texts(out@) == texts(fields@).subrange(0, i as int),
                    decreases fields@.len() - i,
                {
                    out.push(fields[i].clone());
                    i = i + 1;
                    assert(texts(out@) =~= texts(fields@).subrange(0, i as int));
                }
                assert(texts(fields@).subrange(0, fields@.len() as int) =~= texts(fields@));
                ParticlePayloadModel::Compound { fields: out }
            },
        };
        ParticleOptionsModel { particle_id: self.particle_id.copy(), payload }
    }
}

impl Clone for ParticleOptionsModel {
    fn clone(&self) -> (r: Self)
        ensures
            r.id_view().same(&self.id_view()),
            r.payload_view() == self.payload_view(),
    {
        self.copy()
    }
}

pub open spec fn not_ws() -> spec_fn(u8) -> bool {
    |b: u8| !is_ascii_whitespace_byte(b)
}

/// Bytes of an option field name: ASCII letters and digits, `_`, `-`, `.`, `/`.
pub open spec fn field_byte(b: u8) -> bool {
    (48 <= b <= 57) || (65 <= b <= 90) || (97 <= b <= 122) || b == 95 || b == 45 || b == 46 || b == 47
}

pub open spec fn field_stops() -> spec_fn(u8) -> bool {
    |b: u8| !field_byte(b)
}

pub open spec fn plain_value_stops() -> spec_fn(u8) -> bool {
    |b: u8| b == 44 || b == 125
}

/// Skipping an option value at `p`: after white space, a braced block
/// through its closing brace, or the text up to `,` or `}`; nothing left,
/// or a block never closed, is an error. Gives where the reader stops.
pub open spec fn value_skip(v: Seq<u8>, p: int) -> (Result<(), TagParseError>, int) {
    let q = scan_end(v, p, not_ws());
    if q >= v.len() {
        (Err(TagParseError::UnclosedCompound), q)
    } else if v[q] == 123u8 {
        let e = brace_close(v, q, 0);
        if e < 0 { (Err(TagParseError::UnclosedCompound), v.len() as int) } else { (Ok(()), e) }
    } else {
        (Ok(()), scan_end(v, q, plain_value_stops()))
    }
}

/// The option fields from `p` on, after the names read so far: a name, `:`
/// after white space, a value, and an optional comma, up to `}`. (A field
/// that is read always moves on, so the reading ends.)
pub open spec fn fields_from(v: Seq<u8>, p: int, names: Seq<Seq<char>>) -> (Result<Seq<Seq<char>>, TagParseError>, int)
    decreases v.len() - p,
{
    if p < 0 || p >= v.len() {
        (Err(TagParseError::UnclosedCompound), p)
    } else if v[p] == 125u8 {
        (Ok(names), p + 1)
    } else {
        let e = scan_end(v, p, field_stops());
        if e == p {
            (Err(TagParseError::InvalidFieldName), p)
        } else {
            let s = scan_end(v, e, not_ws());
            if s >= v.len() || v[s] != 58u8 {
                (Err(TagParseError::InvalidFieldName), s)
            } else {
                let value = value_skip(v, s + 1);
                match value.0 {
                    Err(x) => (Err(x), value.1),
                    Ok(_) => {
                        let t = scan_end(v, value.1, not_ws());
                        let next = if t < v.len() && v[t] == 44u8 { t + 1 } else { t };
                        let name = decode_utf8(v.subrange(p, e));
                        if p < next <= v.len() {
                            fields_from(v, next, names.push(name))
                        } else {
                            (Ok(names.push(name)), next)
                        }
                    },
                }
            }
        }
    }
}

/// The options compound at `p`, and where the reader stops.
pub open spec fn payload_read(v: Seq<u8>, p: int) -> (Result<Seq<Seq<char>>, TagParseError>, int) {
    if p < 0 || p >= v.len() || v[p] != 123u8 {
        (Err(TagParseError::ExpectedOpeningBrace), p)
    } else {
        fields_from(v, p + 1, seq![])
    }
}

pub open spec fn stops_of(kind: u8) -> spec_fn(u8) -> bool {
    if kind == 0 { not_ws() } else if kind == 1 { field_stops() } else { plain_value_stops() }
}

fn is_stop(b: u8, kind: u8) -> (r: bool)
    ensures
        r == (stops_of(kind))(b),
{
    if kind == 0 {
        !(b == 32 || b == 9 || b == 10 || b == 12 || b == 13)
    } else if kind == 1 {
        !((48 <= b && b <= 57) || (65 <= b && b <= 90) || (97 <= b && b <= 122) || b == 95 || b == 45 || b == 46 || b == 47)
    } else {
        b == 44 || b == 125
    }
}

/// Moves the reader to the first stop byte of the kind (0: not white space,
/// 1: not a field byte, 2: `,` or `}`) or the end.
fn scan(reader: &mut StringReaderModel, kind: u8)
    requires
        old(reader).at_cut(),
        kind <= 2,
    ensures
        advanced(*old(reader), *final(reader)),
        final(reader).pos() == scan_end(old(reader).bytes(), old(reader).pos(), stops_of(kind)),
{
    proof {
        reader.lemma_bytes();
    }
    let ghost v = reader.bytes();
    let ghost start = reader.pos();
    let ghost p = stops_of(kind);
    proof {
        lemma_first_index_from(v, p, start);
    }
    while reader.can_read() && !is_stop(reader.peek_byte(), kind)
        invariant
            reader.text() == old(reader).text(),
            reader.bytes() == v,
            0 <= start <= reader.pos() <= v.len(),
            first_index_from(v, p, reader.pos()) == first_index_from(v, p, start),
            reader.pos() > start ==> !p(v[reader.pos() - 1]),
        decreases v.len() - reader.pos(),
    {
        reader.skip();
    }
    proof {
        reader.lemma_bytes();
        lemma_first_index_from(v, p, reader.pos());
        if reader.pos() < v.len() && kind == 2 {
            lemma_cut_at_ascii(v, reader.pos());
        } else if reader.pos() > start && reader.pos() < v.len() {
            let b = v[reader.pos() - 1];
            if kind == 0 {
                assert(is_ascii_whitespace_byte(b));
            } else {
                assert(field_byte(b));
            }
            lemma_cut_after_ascii(v, reader.pos());
        }
    }
}

fn skip_value(reader: &mut StringReaderModel) -> (r: Result<(), TagParseError>)
    requires
        old(reader).at_cut(),
    ensures
        advanced(*old(reader), *final(reader)),
        r == value_skip(old(reader).bytes(), old(reader).pos()).0,
        final(reader).pos() == value_skip(old(reader).bytes(), old(reader).pos()).1,
{
    proof {
        reader.lemma_bytes();
    }
    let ghost v = reader.bytes();
    scan(reader, 0);
    proof {
        reader.lemma_bytes();
    }
    if !reader.can_read() {
        return Err(TagParseError::UnclosedCompound);
    }
    if reader.peek_byte() == 123 {
        let ghost start = reader.pos();
        let total = reader.total_len();
        let mut depth: usize = 0;
        while reader.can_read()
            invariant
                total == v.len(),
                reader.text() == old(reader).text(),
                reader.bytes() == v,
                0 <= start <= reader.pos() <= v.len(),
                start < v.len(),
                v[start] == 123u8,
                reader.pos() > start ==> depth >= 1,
                reader.pos() == start ==> depth == 0,
                depth <= reader.pos() - start,
                brace_close(v, reader.pos(), depth as int) == brace_close(v, start, 0),
            decreases v.len() - reader.pos(),
        {
            proof {
                reader.lemma_bytes();
            }
            let b = reader.peek_byte();
            if b == 123 {
                depth = depth + 1;
                reader.skip();
            } else if b == 125 {
                depth = depth - 1;
                reader.skip();
                if depth == 0 {
                    proof {
                        reader.lemma_bytes();
                        lemma_cut_after_ascii(v, reader.pos());
                    }
                    return Ok(());
                }
            } else {
                reader.skip();
            }
        }
        proof {
            reader.lemma_bytes();
            lemma_cut_at_ascii(v, reader.pos());
        }
        return Err(TagParseError::UnclosedCompound);
    }
    scan(reader, 2);
    Ok(())
}

/// Reads an options compound: `{`, then fields up to `}`.
fn parse_compound_argument(reader: &mut StringReaderModel) -> (r: Result<ParticlePayloadModel, TagParseError>)
    requires
        old(reader).at_cut(),
    ensures
        advanced(*old(reader), *final(reader)),
        match r {
            Ok(p) => payload_read(old(reader).bytes(), old(reader).pos()).0 matches Ok(names) && payload_view(p) == Some(names),
            Err(e) => payload_read(old(reader).bytes(), old(reader).pos()).0 == Err::<Seq<Seq<char>>, TagParseError>(e),
        },
        final(reader).pos() == payload_read(old(reader).bytes(), old(reader).pos()).1,
{
    proof {
        reader.lemma_bytes();
    }
    let ghost v = reader.bytes();
    let ghost p0 = reader.pos();
    if !reader.can_read() || reader.peek_byte() != 123 {
        return Err(TagParseError::ExpectedOpeningBrace);
    }
    reader.skip();
    proof {
        reader.lemma_bytes();
        lemma_cut_after_ascii(v, reader.pos());
    }
    let mut fields: Vec<String> = Vec::new();
    assert(texts(fields@) =~= Seq::<Seq<char>>::empty());
    loop
        invariant
            advanced(*old(reader), *reader),
            reader.bytes() == v,
            v == old(reader).bytes(),
            p0 == old(reader).pos(),
            p0 < reader.pos(),
            fields_from(v, reader.pos(), texts(fields@)) == payload_read(v, p0),
        decreases v.len() - reader.pos(),
    {
        proof {
            reader.lemma_bytes();
        }
        if !reader.can_read() {
            return Err(TagParseError::UnclosedCompound);
        }
        if reader.peek_byte() == 125 {
            reader.skip();
            proof {
                reader.lemma_bytes();
                lemma_cut_after_ascii(v, reader.pos());
            }
            return Ok(ParticlePayloadModel::Compound { fields });
        }
        let field_start = reader.cursor();
        scan(reader, 1);
        if reader.cursor() == field_start {
            return Err(TagParseError::InvalidFieldName);
        }
        let field = reader.slice_string(field_start, reader.cursor());
        scan(reader, 0);
        proof {
            reader.lemma_bytes();
        }
        if !reader.can_read() || reader.peek_byte() != 58 {
            return Err(TagParseError::InvalidFieldName);
        }
        reader.skip();
        proof {
            reader.lemma_bytes();
            lemma_cut_after_ascii(v, reader.pos());
        }
        match skip_value(reader) {
            Ok(()) => {},
            Err(e) => return Err(e),
        }
        let ghost before = fields@;
        fields.push(field);
        assert(texts(fields@) =~= texts(before).push(field@));
        scan(reader, 0);
        proof {
            reader.lemma_bytes();
        }
        if reader.can_read() && reader.peek_byte() == 44 {
            reader.skip();
            proof {
                reader.lemma_bytes();
                lemma_cut_after_ascii(v, reader.pos());
            }
        }
    }
}

/// The particle types known to the commands, in registry order.
pub struct CommandBuildContextModel {
    particle_types: Vec<ParticleTypeModel>,
}

impl CommandBuildContextModel {
    pub closed spec fn types_view(&self) -> Seq<ParticleTypeModel> {
        self.particle_types@
    }

    /// The context with the particle type registry replaced by the types.
    pub fn with_particle_types(self, particles: &[ParticleTypeModel]) -> (r: Self)
        ensures
            r.types_view().len() == particles@.len(),
            forall|i: int| 0 <= i < particles@.len() ==> (#[trigger] r.types_view()[i]).id_view().same(&particles@[i].id_view())
                && r.types_view()[i].required_field() == particles@[i].required_field(),
    {
        let mut types: Vec<ParticleTypeModel> = Vec::new();
        let mut i: usize = 0;
        while i < particles.len()
            invariant
                0 <= i <= particles@.len(),
                types@.len() == i,
                forall|k: int| 0 <= k < i ==> (#[trigger] types@[k]).id_view().same(&particles@[k].id_view())
                    && types@[k].required_field() == particles@[k].required_field(),
            decreases particles@.len() - i,
        {
            types.push(particles[i].copy());
            i = i + 1;
        }
        CommandBuildContextModel { particle_types: types }
    }

    pub fn copy(&self) -> (r: Self)
        ensures
            r.types_view().len() == self.types_view().len(),
            forall|i: int| 0 <= i < self.types_view().len() ==> (#[trigger] r.types_view()[i]).id_view().same(&self.types_view()[i].id_view())
                && r.types_view()[i].required_field() == self.types_view()[i].required_field(),
    {
        CommandBuildContextModel::default().with_particle_types(self.particle_types.as_slice())
    }
}

impl Default for CommandBuildContextModel {
    fn default() -> (r: Self)
        ensures
            r.types_view().len() == 0,
    {
        CommandBuildContextModel { particle_types: Vec::new() }
    }
}

/// Whether the type has the identifier that the text stands for.
pub open spec fn has_id(tok: Seq<u8>) -> spec_fn(ParticleTypeModel) -> bool {
    |t: ParticleTypeModel| t.id_view().parses_to(tok)
}

/// What reading a particle gives for the registry: an identifier (an
/// invalid one leaves the reader where it was), a known type (an unknown
/// one is reported with the position after it), and its options when a
/// compound follows, checked against the type's rule.
pub open spec fn particle_read(types: Seq<ParticleTypeModel>, v: Seq<u8>, p: int, r: Result<ParticleOptionsModel, ParticleParseError>, pos: int) -> bool {
    let end = identifier_end(v, p);
    let tok = v.subrange(p, end);
    match parse_identifier(tok) {
        None => r == Err::<ParticleOptionsModel, ParticleParseError>(ParticleParseError::Identifier(IdentifierArgumentParseError::InvalidIdentifier))
            && pos == p,
        Some(_) => {
            let i = first_index_from(types, has_id(tok), 0);
            if i < 0 {
                r matches Err(ParticleParseError::UnknownParticle { id, cursor }) && id.parses_to(tok) && cursor == end && pos == end
            } else {
                let required = types[i].required_field();
                if end < v.len() && v[end] == 123u8 {
                    let payload = payload_read(v, end);
                    &&& pos == payload.1
                    &&& match payload.0 {
                        Err(e) => r == Err::<ParticleOptionsModel, ParticleParseError>(ParticleParseError::TagParser(e)),
                        Ok(names) => match decoded(required, Some(names)) {
                            Ok(()) => r matches Ok(o) && o.id_view().parses_to(tok) && o.payload_view() == Some(names),
                            Err(e) => r matches Err(ParticleParseError::InvalidOptions(x)) && decode_error_view(x) == e,
                        },
                    }
                } else {
                    &&& pos == end
                    &&& match decoded(required, None) {
                        Ok(()) => r matches Ok(o) && o.id_view().parses_to(tok) && o.payload_view() is None,
                        Err(e) => r matches Err(ParticleParseError::InvalidOptions(x)) && decode_error_view(x) == e,
                    }
                }
            }
        },
    }
}

/// Reads a particle type of the registry and its options.
pub fn read_particle(reader: &mut StringReaderModel, registries: &CommandBuildContextModel) -> (r: Result<ParticleOptionsModel, ParticleParseError>)
    requires
        old(reader).at_cut(),
    ensures
        final(reader).text() == old(reader).text(),
        final(reader).at_cut(),
        particle_read(registries.types_view(), old(reader).bytes(), old(reader).pos(), r, final(reader).pos()),
{
    proof {
        reader.lemma_bytes();
    }
    let ghost v = reader.bytes();
    let ghost p = reader.pos();
    let id = match CommandIdentifierModel::read(reader) {
        Ok(id) => id,
        Err(e) => return Err(ParticleParseError::Identifier(e)),
    };
    let ghost end = reader.pos();
    let ghost tok = v.subrange(p, end);
    let types = &registries.particle_types;
    let ghost pred = has_id(tok);
    proof {
        lemma_first_index_from(types@, pred, 0);
    }
    let mut i: usize = 0;
    while i < types.len()
        invariant
            0 <= i <= types@.len(),
            id.parses_to(tok),
            first_index_from(types@, pred, i as int) == first_index_from(types@, pred, 0),
        decreases types@.len() - i,
    {
        if types[i].id.equals(&id) {
            proof {
                crate::command_identifier_argument::lemma_same_as_parsed(types@[i as int].id_view(), id, tok);
            }
            break;
        }
        proof {
            crate::command_identifier_argument::lemma_same_as_parsed(types@[i as int].id_view(), id, tok);
            lemma_first_index_from(types@, pred, i as int);
        }
        i = i + 1;
    }
    proof {
        lemma_first_index_from(types@, pred, i as int);
    }
    if i == types.len() {
        let cursor = reader.cursor();
        return Err(ParticleParseError::UnknownParticle { id, cursor });
    }
    let particle_type = &types[i];
    proof {
        reader.lemma_bytes();
    }
    let payload = if reader.can_read() && reader.peek_byte() == 123 {
        match parse_compound_argument(reader) {
            Ok(payload) => payload,
            Err(e) => return Err(ParticleParseError::TagParser(e)),
        }
    } else {
        ParticlePayloadModel::EmptyMap
    };
    match particle_type.decode(payload) {
        Ok(options) => {
            proof {
                crate::command_identifier_argument::lemma_same_as_parsed(options.id_view(), particle_type.id, tok);
            }
            Ok(options)
        },
        Err(e) => Err(ParticleParseError::InvalidOptions(e)),
    }
}

/// The namespace and path of each type's identifier.
pub open spec fn type_parts(types: Seq<ParticleTypeModel>) -> Seq<(Seq<char>, Seq<char>)> {
    types.map_values(|t: ParticleTypeModel| (t.id_view().namespace_view(), t.id_view().path_view()))
}

/// The particle argument, with the registries it reads from.
pub struct ParticleArgumentModel {
    registries: CommandBuildContextModel,
}

impl ParticleArgumentModel {
    pub closed spec fn types_view(&self) -> Seq<ParticleTypeModel> {
        self.registries.types_view()
    }

    pub fn particle(context: &CommandBuildContextModel) -> (r: Self)
        ensures
            r.types_view().len() == context.types_view().len(),
            forall|i: int| 0 <= i < context.types_view().len() ==> (#[trigger] r.types_view()[i]).id_view().same(&context.types_view()[i].id_view())
                && r.types_view()[i].required_field() == context.types_view()[i].required_field(),
    {
        ParticleArgumentModel { registries: context.copy() }
    }

    /// Reads a particle with the argument's registries.
    pub fn parse(&self, reader: &mut StringReaderModel) -> (r: Result<ParticleOptionsModel, ParticleParseError>)
        requires
            old(reader).at_cut(),
        ensures
            final(reader).text() == old(reader).text(),
            final(reader).at_cut(),
            particle_read(self.types_view(), old(reader).bytes(), old(reader).pos(), r, final(reader).pos()),
    {
        read_particle(reader, &self.registries)
    }

    /// The identifiers of the registry's particle types that the typed text
    /// matches, in registry order.
    pub fn list_suggestions(&self, remaining: &str) -> (r: Vec<String>)
        ensures
            r@.map_values(|s: String| s@) == resources_offered(type_parts(self.types_view()), remaining@),
    {
        let types = &self.registries.particle_types;
        let mut ids: Vec<CommandIdentifierModel> = Vec::new();
        let mut i: usize = 0;
        while i < types.len()
            invariant
                0 <= i <= types@.len(),
                id_parts(ids@) == type_parts(types@).subrange(0, i as int),
            decreases types@.len() - i,
        {
            let ghost before = ids@;
            ids.push(types[i].id.copy());
            assert(ids@.drop_last() == before);
            assert(id_parts(ids@) =~= type_parts(types@).subrange(0, i + 1));
            i = i + 1;
        }
        assert(type_parts(types@).subrange(0, types@.len() as int) =~= type_parts(types@));
        suggest_identifiers(&ids, remaining)
    }

    pub fn examples(&self) -> (r: [&'static str; 3])
        ensures
            r@[0]@ == "foo"@,
            r@[1]@ == "foo:bar"@,
            r@[2]@ == "particle{foo:bar}"@,
    {
        ["foo", "foo:bar", "particle{foo:bar}"]
    }
}

/// The bound particle arguments, by name.
pub struct CommandContextModel {
    arguments: ArgMap<ParticleOptionsModel>,
}

impl CommandContextModel {
    pub closed spec fn view(&self) -> Map<Seq<char>, ParticleOptionsModel> {
        self.arguments.view()
    }

    pub fn with_particle(self, name: &str, value: ParticleOptionsModel) -> (r: Self)
        ensures
            r.view() == self.view().insert(name@, value),
    {
        let mut arguments = self.arguments;
        arguments.insert(name.to_owned(), value);
        CommandContextModel { arguments }
    }
}

impl Default for CommandContextModel {
    fn default() -> (r: Self)
        ensures
            r.view() == Map::<Seq<char>, ParticleOptionsModel>::empty(),
    {
        CommandContextModel { arguments: ArgMap::new() }
    }
}

/// A copy of the particle bound to `name`.
pub fn get_particle(context: &CommandContextModel, name: &str) -> (r: Option<ParticleOptionsModel>)
    ensures
        r is Some <==> context.view().contains_key(name@),
        r matches Some(o) ==> o.id_view().same(&context.view()[name@].id_view())
            && o.payload_view() == context.view()[name@].payload_view(),
{
    match context.arguments.get(name) {
        Some(o) => Some(o.copy()),
        None => None,
    }
}

} // verus!
