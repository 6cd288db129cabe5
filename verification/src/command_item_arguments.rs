//! The item arguments: `item` (an item with a component patch,
//! `stick[custom_name=Blade,!damage]`), `item_predicate` (a type, tag or
//! `*`, with alternatives of component, predicate and count tests) and
//! `function` (a function or `#`tag, resolved when the command runs).

use vstd::prelude::*;
use vstd::string::StringSliceAdditionalSpecFns;
use crate::text::{utf8, push_str, push_char, str_eq, cut_point, is_ascii_whitespace_byte};
use crate::arg_map::ArgMap;
use crate::search::{first_index, first_index_from, last_index, scan_end, lemma_first_index_from, lemma_last_index,
    lemma_last_index_step, lemma_last_index_hit, lemma_last_index_whole};
use crate::str_map::{StrMap, text_entries, sorted_keys};
use crate::string_reader::{lemma_cut_at_ascii, lemma_cut_after_ascii, advanced};
use vstd::utf8::decode_utf8;
use crate::command_shared_suggestion_provider::SuggestionsBuilderModel;
use crate::decimal::{unsigned_decimal, parse_u32};
pub use crate::string_reader::StringReaderModel;

verus! {

broadcast use vstd::utf8::encode_utf8_decode_utf8, vstd::utf8::encode_utf8_valid_utf8;

pub const ITEM_ARGUMENTS_PACKAGE_NULL_MARKED: bool = true;

pub struct ItemDefinitionModel {
    id: String,
    max_stack_size: u32,
}

pub struct ComponentDefinitionModel {
    id: String,
    transient: bool,
    has_value_codec: bool,
}

/// The known items, item tags, data components and item predicates, by identifier.
pub struct ItemRegistryModel {
    items: StrMap<ItemDefinitionModel>,
    tags: StrMap<StrMap<()>>,
    components: StrMap<ComponentDefinitionModel>,
    predicates: StrMap<()>,
}

#[derive(Debug, PartialEq, Eq)]
pub struct DataComponentPatchModel {
    set: StrMap<String>,
    removed: StrMap<()>,
}

#[derive(Debug, PartialEq, Eq)]
pub struct ItemInputModel {
    item_id: String,
    components: DataComponentPatchModel,
}

#[derive(Debug, PartialEq, Eq)]
pub struct ItemStackModel {
    item_id: String,
    count: u32,
    components: StrMap<String>,
}

#[derive(Debug, Clone, PartialEq, Eq)]
pub enum ItemArgumentError {
    UnknownItem { cursor: usize, id: String },
    UnknownTag { cursor: usize, id: String },
    UnknownComponent { cursor: usize, id: String },
    UnknownPredicate { cursor: usize, id: String },
    RepeatedComponent { id: String },
    ExpectedComponent { cursor: usize },
    ExpectedChar { cursor: usize, value: char },
    MalformedComponent { cursor: usize, id: String, message: String },
    MalformedPredicate { cursor: usize, id: String, message: String },
    StackTooBig { item: String, max: u32 },
    MalformedItem { message: String },
    UnknownFunction { id: String },
    UnknownFunctionTag { id: String },
    InvalidIdentifier { cursor: usize },
    InvalidValue { cursor: usize },
}

/// An identifier in the default namespace unless it names one.
pub open spec fn normalized(v: Seq<char>) -> Seq<char> {
    if v.contains(':') { v } else { "minecraft:"@ + v }
}

fn contains_colon(value: &str) -> (r: bool)
    ensures
        r == value@.contains(':'),
{
    let n = value.unicode_len();
    let mut i: usize = 0;
    while i < n
        invariant
            n == value@.len(),
            0 <= i <= n,
            forall|k: int| 0 <= k < i ==> value@[k] != ':',
        decreases n - i,
    {
        if value.get_char(i) == ':' {
            assert(value@[i as int] == ':');
            return true;
        }
        i = i + 1;
    }
    false
}

/// The identifier, in the default namespace unless it names one.
fn normalize_id(value: &str) -> (r: String)
    ensures
        r@ == normalized(value@),
{
    if contains_colon(value) {
        value.to_owned()
    } else {
        let mut s = "minecraft:".to_owned();
        push_str(&mut s, value);
        s
    }
}

impl ItemDefinitionModel {
    pub closed spec fn id_view(&self) -> Seq<char> {
        self.id@
    }

    pub closed spec fn max_view(&self) -> u32 {
        self.max_stack_size
    }
}

impl ComponentDefinitionModel {
    pub closed spec fn id_view(&self) -> Seq<char> {
        self.id@
    }

    pub closed spec fn is_transient(&self) -> bool {
        self.transient
    }

    pub closed spec fn has_codec(&self) -> bool {
        self.has_value_codec
    }
}

/// A component that the item parser accepts: a known one that is not transient.
pub open spec fn parser_component(c: Option<ComponentDefinitionModel>) -> bool {
    c matches Some(d) && !d.is_transient()
}

/// A component with a value codec that is not transient.
pub open spec fn codec_component(c: Option<ComponentDefinitionModel>) -> bool {
    c matches Some(d) && !d.is_transient() && d.has_codec()
}

impl ItemRegistryModel {
    pub closed spec fn items_view(&self) -> StrMap<ItemDefinitionModel> {
        self.items
    }

    pub closed spec fn tags_view(&self) -> StrMap<StrMap<()>> {
        self.tags
    }

    pub closed spec fn components_view(&self) -> StrMap<ComponentDefinitionModel> {
        self.components
    }

    pub closed spec fn predicates_view(&self) -> StrMap<()> {
        self.predicates
    }

    /// The item known under the identifier (in the default namespace unless it names one).
    pub open spec fn item(&self, id: Seq<char>) -> Option<ItemDefinitionModel> {
        self.items_view().lookup(normalized(id))
    }

    pub open spec fn component(&self, id: Seq<char>) -> Option<ComponentDefinitionModel> {
        self.components_view().lookup(normalized(id))
    }

    /// Registers an item with its largest stack size.
    pub fn with_item(self, id: &str, max_stack_size: u32) -> (r: Self)
        ensures
            forall|k: Seq<char>| k != normalized(id@) ==> #[trigger] r.items_view().lookup(k) == self.items_view().lookup(k),
            r.item(id@) matches Some(d) && d.id_view() == normalized(id@) && d.max_view() == max_stack_size,
            r.tags_view() == self.tags_view(),
            r.components_view() == self.components_view(),
            r.predicates_view() == self.predicates_view(),
    {
        let mut items = self.items;
        items.insert(normalize_id(id), ItemDefinitionModel { id: normalize_id(id), max_stack_size });
        ItemRegistryModel { items, tags: self.tags, components: self.components, predicates: self.predicates }
    }

    /// Registers a tag with the items it holds.
    pub fn with_tag(self, id: &str, items: &[&str]) -> (r: Self)
        ensures
            forall|k: Seq<char>| k != normalized(id@) ==> #[trigger] r.tags_view().lookup(k) == self.tags_view().lookup(k),
            r.tags_view().lookup(normalized(id@)) matches Some(set) && forall|k: Seq<char>|
                (#[trigger] set.lookup(k) is Some <==> exists|i: int| 0 <= i < items@.len() && normalized(items@[i]@) == k),
            r.items_view() == self.items_view(),
            r.components_view() == self.components_view(),
            r.predicates_view() == self.predicates_view(),
    {
        let mut set: StrMap<()> = StrMap::new();
        let mut i: usize = 0;
        while i < items.len()
            invariant
                0 <= i <= items@.len(),
                forall|k: Seq<char>| (#[trigger] set.lookup(k) is Some <==> exists|j: int| 0 <= j < i && normalized(items@[j]@) == k),
            decreases items@.len() - i,
        {
            let ghost before = set;
            let key = normalize_id(items[i]);
            let ghost kv = key@;
            set.insert(key, ());
            proof {
                assert forall|k: Seq<char>| (#[trigger] set.lookup(k) is Some <==> exists|j: int| 0 <= j < i + 1 && normalized(items@[j]@) == k) by {
                    if k == kv {
                        assert(normalized(items@[i as int]@) == k);
                    } else {
                        assert(set.lookup(k) == before.lookup(k));
                        if exists|j: int| 0 <= j < i + 1 && normalized(items@[j]@) == k {
                            let j = choose|j: int| 0 <= j < i + 1 && normalized(items@[j]@) == k;
                            assert(j < i);
                        }
                    }
                }
            }
            i = i + 1;
        }
        let mut tags = self.tags;
        tags.insert(normalize_id(id), set);
        ItemRegistryModel { items: self.items, tags, components: self.components, predicates: self.predicates }
    }

    fn with_component_kind(self, id: &str, transient: bool, has_value_codec: bool) -> (r: Self)
        ensures
            forall|k: Seq<char>| k != normalized(id@) ==> #[trigger] r.components_view().lookup(k) == self.components_view().lookup(k),
            r.component(id@) matches Some(d) && d.id_view() == normalized(id@) && d.is_transient() == transient
                && d.has_codec() == has_value_codec,
            r.items_view() == self.items_view(),
            r.tags_view() == self.tags_view(),
            r.predicates_view() == self.predicates_view(),
    {
        let mut components = self.components;
        components.insert(normalize_id(id), ComponentDefinitionModel { id: normalize_id(id), transient, has_value_codec });
        ItemRegistryModel { items: self.items, tags: self.tags, components, predicates: self.predicates }
    }

    /// Registers a data component with a value.
    pub fn with_component(self, id: &str) -> (r: Self)
        ensures
            forall|k: Seq<char>| k != normalized(id@) ==> #[trigger] r.components_view().lookup(k) == self.components_view().lookup(k),
            r.component(id@) matches Some(d) && d.id_view() == normalized(id@) && !d.is_transient() && d.has_codec(),
            r.items_view() == self.items_view(),
            r.tags_view() == self.tags_view(),
            r.predicates_view() == self.predicates_view(),
    {
        self.with_component_kind(id, false, true)
    }

    /// Registers a data component that is never written to items.
    pub fn with_transient_component(self, id: &str) -> (r: Self)
        ensures
            forall|k: Seq<char>| k != normalized(id@) ==> #[trigger] r.components_view().lookup(k) == self.components_view().lookup(k),
            r.component(id@) matches Some(d) && d.id_view() == normalized(id@) && d.is_transient() && d.has_codec(),
            r.items_view() == self.items_view(),
            r.tags_view() == self.tags_view(),
            r.predicates_view() == self.predicates_view(),
    {
        self.with_component_kind(id, true, true)
    }

    /// Registers a data component without a value.
    pub fn with_marker_component(self, id: &str) -> (r: Self)
        ensures
            forall|k: Seq<char>| k != normalized(id@) ==> #[trigger] r.components_view().lookup(k) == self.components_view().lookup(k),
            r.component(id@) matches Some(d) && d.id_view() == normalized(id@) && !d.is_transient() && !d.has_codec(),
            r.items_view() == self.items_view(),
            r.tags_view() == self.tags_view(),
            r.predicates_view() == self.predicates_view(),
    {
        self.with_component_kind(id, false, false)
    }

    /// Registers an item sub-predicate.
    pub fn with_predicate(self, id: &str) -> (r: Self)
        ensures
            forall|k: Seq<char>| #[trigger] r.predicates_view().lookup(k) is Some <==> (k == normalized(id@)
                || self.predicates_view().lookup(k) is Some),
            r.items_view() == self.items_view(),
            r.tags_view() == self.tags_view(),
            r.components_view() == self.components_view(),
    {
        let mut predicates = self.predicates;
        let ghost before = predicates;
        let key = normalize_id(id);
        let ghost kv = key@;
        predicates.insert(key, ());
        assert forall|k: Seq<char>| #[trigger] predicates.lookup(k) is Some <==> (k == kv || before.lookup(k) is Some) by {
            if k != kv {
                assert(predicates.lookup(k) == before.lookup(k));
            }
        }
        ItemRegistryModel { items: self.items, tags: self.tags, components: self.components, predicates }
    }

    fn item_max(&self, id: &str) -> (r: Option<u32>)
        ensures
            match self.item(id@) {
                Some(d) => r == Some(d.max_view()),
                None => r is None,
            },
    {
        match self.items.get(normalize_id(id).as_str()) {
            Some(d) => Some(d.max_stack_size),
            None => None,
        }
    }

    /// The component's identifier, when it is known, not transient and (when
    /// `need_codec`) has a value.
    fn known_component(&self, id: &str, need_codec: bool) -> (r: Option<String>)
        ensures
            ({
                let c = self.component(id@);
                let ok = if need_codec { codec_component(c) } else { parser_component(c) };
                if ok { r matches Some(s) && c matches Some(d) && s@ == d.id_view() } else { r is None }
            }),
    {
        match self.components.get(normalize_id(id).as_str()) {
            Some(d) => {
                if !d.transient && (!need_codec || d.has_value_codec) {
                    Some(d.id.clone())
                } else {
                    None
                }
            },
            None => None,
        }
    }
}

impl Default for ItemRegistryModel {
    fn default() -> (r: Self)
        ensures
            r.items_view().entries().len() == 0,
            r.tags_view().entries().len() == 0,
            r.components_view().entries().len() == 0,
            r.predicates_view().entries().len() == 0,
    {
        ItemRegistryModel { items: StrMap::new(), tags: StrMap::new(), components: StrMap::new(), predicates: StrMap::new() }
    }
}


/// Bytes of an identifier: ASCII letters and digits, `_`, `-`, `.`, `/` and `:`.
pub open spec fn ident_byte(b: u8) -> bool {
    (48 <= b <= 57) || (65 <= b <= 90) || (97 <= b <= 122) || b == 95 || b == 45 || b == 46 || b == 47 || b == 58
}

pub open spec fn ident_stops() -> spec_fn(u8) -> bool {
    |b: u8| !ident_byte(b)
}

pub open spec fn ws_stops() -> spec_fn(u8) -> bool {
    |b: u8| !is_ascii_whitespace_byte(b)
}

/// Bytes that end an unbraced value.
pub open spec fn value_stops() -> spec_fn(u8) -> bool {
    |b: u8| b == 44 || b == 93 || b == 124
}

fn is_stop(b: u8, kind: u8) -> (r: bool)
    ensures
        r == (if kind == 0 { !ident_byte(b) } else if kind == 1 { !is_ascii_whitespace_byte(b) } else { b == 44 || b == 93 || b == 124 }),
{
    if kind == 0 {
        !((48 <= b && b <= 57) || (65 <= b && b <= 90) || (97 <= b && b <= 122) || b == 95 || b == 45 || b == 46 || b == 47 || b == 58)
    } else if kind == 1 {
        !(b == 32 || b == 9 || b == 10 || b == 12 || b == 13)
    } else {
        b == 44 || b == 93 || b == 124
    }
}

/// Moves the reader to the first stop byte of `kind` (0: non-identifier,
/// 1: non-whitespace, 2: value end) or the end.
fn scan(reader: &mut StringReaderModel, kind: u8)
    requires
        old(reader).at_cut(),
        kind <= 2,
    ensures
        advanced(*old(reader), *final(reader)),
        final(reader).pos() == scan_end(old(reader).bytes(), old(reader).pos(),
            if kind == 0 { ident_stops() } else if kind == 1 { ws_stops() } else { value_stops() }),
{
    proof {
        reader.lemma_bytes();
    }
    let ghost v = reader.bytes();
    let ghost start = reader.pos();
    let ghost p = if kind == 0 { ident_stops() } else if kind == 1 { ws_stops() } else { value_stops() };
    proof {
        lemma_first_index_from(v, p, start);
    }
    while reader.can_read() && !is_stop(reader.peek_byte(), kind)
        invariant
            reader.text() == old(reader).text(),
            reader.bytes() == v,
            0 <= start <= reader.pos() <= v.len(),
            first_index_from(v, p, reader.pos()) == first_index_from(v, p, start),
            reader.pos() > start ==> !p(v[reader.pos() - 1]),
        decreases v.len() - reader.pos(),
    {
        reader.skip();
    }
    proof {
        reader.lemma_bytes();
        lemma_first_index_from(v, p, reader.pos());
        if reader.pos() < v.len() && kind == 2 {
            lemma_cut_at_ascii(v, reader.pos());
        } else if reader.pos() > start && reader.pos() < v.len() {
            lemma_cut_after_ascii(v, reader.pos());
        }
    }
}

fn skip_whitespace(reader: &mut StringReaderModel)
    requires
        old(reader).at_cut(),
    ensures
        advanced(*old(reader), *final(reader)),
        final(reader).pos() == scan_end(old(reader).bytes(), old(reader).pos(), ws_stops()),
{
    scan(reader, 1);
}

/// Consumes the ASCII character `value`, or fails where the reader stands.
fn expect(reader: &mut StringReaderModel, value: char) -> (r: Result<(), ItemArgumentError>)
    requires
        old(reader).at_cut(),
        (value as u32) < 128,
    ensures
        advanced(*old(reader), *final(reader)),
        ({
            let v = old(reader).bytes();
            let p = old(reader).pos();
            if p < v.len() && v[p] == value as u8 {
                r is Ok && final(reader).pos() == p + 1
            } else {
                r == Err::<(), ItemArgumentError>(ItemArgumentError::ExpectedChar { cursor: p as usize, value })
                    && final(reader).pos() == p
            }
        }),
{
    proof {
        reader.lemma_bytes();
    }
    if reader.can_read() && reader.peek_byte() == value as u8 {
        reader.skip();
        proof {
            reader.lemma_bytes();
            lemma_cut_after_ascii(reader.bytes(), reader.pos());
        }
        Ok(())
    } else {
        Err(ItemArgumentError::ExpectedChar { cursor: reader.cursor(), value })
    }
}

/// An identifier, in the default namespace unless it names one; none is an error.
fn read_identifier(reader: &mut StringReaderModel) -> (r: Result<String, ItemArgumentError>)
    requires
        old(reader).at_cut(),
    ensures
        advanced(*old(reader), *final(reader)),
        ({
            let v = old(reader).bytes();
            let p = old(reader).pos();
            let e = scan_end(v, p, ident_stops());
            &&& e >= p
            &&& if e == p {
                r == Err::<String, ItemArgumentError>(ItemArgumentError::InvalidIdentifier { cursor: p as usize })
                    && final(reader).pos() == p
            } else {
                r matches Ok(s) && s@ == normalized(decode_utf8(v.subrange(p, e))) && final(reader).pos() == e
            }
        }),
{
    let start = reader.cursor();
    scan(reader, 0);
    let end = reader.cursor();
    if start == end {
        return Err(ItemArgumentError::InvalidIdentifier { cursor: start });
    }
    let raw = reader.slice(start, end);
    Ok(normalize_id(raw))
}

/// Unicode white space, as `char::is_whitespace` reads it.
pub open spec fn is_white(c: char) -> bool {
    c == '\t' || c == '\n' || c == '\u{0B}' || c == '\u{0C}' || c == '\r' || c == ' ' || c == '\u{85}' || c == '\u{A0}'
        || c == '\u{1680}' || ('\u{2000}' <= c && c <= '\u{200A}') || c == '\u{2028}' || c == '\u{2029}' || c == '\u{202F}'
        || c == '\u{205F}' || c == '\u{3000}'
}

pub open spec fn non_white() -> spec_fn(char) -> bool {
    |c: char| !is_white(c)
}

/// The text without leading and trailing white space.
pub open spec fn trimmed(t: Seq<char>) -> Seq<char> {
    let a = first_index(t, non_white());
    if a < 0 { seq![] } else { t.subrange(a, last_index(t, non_white()) + 1) }
}

fn is_white_char(c: char) -> (r: bool)
    ensures
        r == is_white(c),
{
    c == '\t' || c == '\n' || c == '\u{0B}' || c == '\u{0C}' || c == '\r' || c == ' ' || c == '\u{85}' || c == '\u{A0}'
        || c == '\u{1680}' || ('\u{2000}' <= c && c <= '\u{200A}') || c == '\u{2028}' || c == '\u{2029}' || c == '\u{202F}'
        || c == '\u{205F}' || c == '\u{3000}'
}

/// `str::trim`.
fn trim_text(s: &str) -> (r: String)
    ensures
        r@ == trimmed(s@),
{
    let n = s.unicode_len();
    let ghost t = s@;
    let ghost p = non_white();
    let mut a: usize = 0;
    proof {
        lemma_first_index_from(t, p, 0);
    }
    while a < n && is_white_char(s.get_char(a))
        invariant
            n == t.len(),
            t == s@,
            0 <= a <= n,
            first_index_from(t, p, a as int) == first_index(t, p),
        decreases n - a,
    {
        a = a + 1;
    }
    proof {
        lemma_first_index_from(t, p, a as int);
    }
    if a == n {
        return String::new();
    }
    let mut b: usize = n;
    proof {
        lemma_last_index_whole(t, p);
    }
    while b > a && is_white_char(s.get_char(b - 1))
        invariant
            n == t.len(),
            t == s@,
            a < n,
            !is_white(t[a as int]),
            a < b <= n || (b == a),
            a <= b,
            last_index(t.subrange(0, b as int), p) == last_index(t, p),
        decreases b,
    {
        proof {
            lemma_last_index_step(t, p, b as int);
        }
        b = b - 1;
    }
    proof {
        lemma_last_index(t, p);
        lemma_last_index(t.subrange(0, b as int), p);
        assert(p(t[a as int]));
        lemma_last_index_hit(t, p, b as int);
    }
    let mut out = String::new();
    let mut i: usize = a;
    while i < b
        invariant
            n == t.len(),
            t == s@,
            a <= i <= b <= n,
            out@ == t.subrange(a as int, i as int),
        decreases b - i,
    {
        push_char(&mut out, s.get_char(i));
        i = i + 1;
        assert(out@ =~= t.subrange(a as int, i as int));
    }
    out
}

/// The position just after the brace that closes the one at `i`, counting
/// `depth` braces already open; `-1` when the text ends first.
pub open spec fn brace_close(v: Seq<u8>, i: int, depth: int) -> int
    decreases v.len() - i,
{
    if i < 0 || i >= v.len() {
        -1
    } else if v[i] == 123u8 {
        brace_close(v, i + 1, depth + 1)
    } else if v[i] == 125u8 {
        if depth - 1 == 0 { i + 1 } else { brace_close(v, i + 1, depth - 1) }
    } else {
        brace_close(v, i + 1, depth)
    }
}

/// A value: a balanced `{...}` block, or the text up to `,`, `]` or `|`
/// without surrounding white space, which must not be empty. A block that
/// is never closed is an error, with the reader left at the end.
pub fn read_value(reader: &mut StringReaderModel) -> (r: Result<String, ItemArgumentError>)
    requires
        old(reader).at_cut(),
    ensures
        advanced(*old(reader), *final(reader)),
        ({
            let v = old(reader).bytes();
            let p = old(reader).pos();
            if p < v.len() && v[p] == 123u8 {
                let e = brace_close(v, p, 0);
                if e >= 0 {
                    r matches Ok(s) && utf8(s@) == v.subrange(p, e) && final(reader).pos() == e
                } else {
                    r == Err::<String, ItemArgumentError>(ItemArgumentError::InvalidValue { cursor: p as usize })
                        && final(reader).pos() == v.len()
                }
            } else {
                let e = scan_end(v, p, value_stops());
                let t = trimmed(decode_utf8(v.subrange(p, e)));
                &&& final(reader).pos() == e
                &&& if t.len() == 0 {
                    r == Err::<String, ItemArgumentError>(ItemArgumentError::InvalidValue { cursor: p as usize })
                } else {
                    r matches Ok(s) && s@ == t
                }
            }
        }),
{
    proof {
        reader.lemma_bytes();
    }
    let ghost v = reader.bytes();
    let start = reader.cursor();
    if reader.can_read() && reader.peek_byte() == 123 {
        let total = reader.total_len();
        let mut depth: usize = 0;
        while reader.can_read()
            invariant
                total == v.len(),
                reader.text() == old(reader).text(),
                reader.bytes() == v,
                start == old(reader).pos(),
                0 <= start <= reader.pos() <= v.len(),
                v[start as int] == 123u8,
                reader.pos() > start ==> depth >= 1,
                reader.pos() == start ==> depth == 0,
                depth <= reader.pos() - start,
                brace_close(v, reader.pos(), depth as int) == brace_close(v, start as int, 0),
            decreases v.len() - reader.pos(),
        {
            proof {
                reader.lemma_bytes();
            }
            let b = reader.peek_byte();
            if b == 123 {
                depth = depth + 1;
            } else if b == 125 {
                depth = depth - 1;
                reader.skip();
                if depth == 0 {
                    let end = reader.cursor();
                    proof {
                        reader.lemma_bytes();
                        lemma_cut_after_ascii(v, end as int);
                    }
                    return Ok(reader.slice_string(start, end));
                }
                continue;
            }
            reader.skip();
        }
        proof {
            reader.lemma_bytes();
            lemma_cut_at_ascii(v, reader.pos());
        }
        return Err(ItemArgumentError::InvalidValue { cursor: start });
    }
    scan(reader, 2);
    let end = reader.cursor();
    let raw = reader.slice(start, end);
    let value = trim_text(raw);
    if value.as_str().unicode_len() == 0 {
        Err(ItemArgumentError::InvalidValue { cursor: start })
    } else {
        Ok(value)
    }
}

impl DataComponentPatchModel {
    /// The components set, with their values.
    pub closed spec fn set_view(&self) -> StrMap<String> {
        self.set
    }

    /// The components removed.
    pub closed spec fn removed_view(&self) -> StrMap<()> {
        self.removed
    }

    pub fn set_components(&self) -> (r: &StrMap<String>)
        ensures
            *r == self.set_view(),
    {
        &self.set
    }

    pub fn removed_components(&self) -> (r: &StrMap<()>)
        ensures
            *r == self.removed_view(),
    {
        &self.removed
    }

    pub fn copy(&self) -> (r: Self)
        ensures
            text_entries(r.set_view().entries()) == text_entries(self.set_view().entries()),
            r.removed_view().entries() == self.removed_view().entries(),
    {
        DataComponentPatchModel { set: self.set.copy(), removed: self.removed.copy() }
    }
}

impl Default for DataComponentPatchModel {
    fn default() -> (r: Self)
        ensures
            r.set_view().entries().len() == 0,
            r.removed_view().entries().len() == 0,
    {
        DataComponentPatchModel { set: StrMap::new(), removed: StrMap::new() }
    }
}

/// Whether some set component has the value `malformed`, which strict
/// validation of the item rejects.
pub open spec fn has_malformed(set: Seq<(Seq<char>, String)>) -> bool {
    exists|i: int| 0 <= i < set.len() && (#[trigger] set[i]).1@ == "malformed"@
}

impl ItemInputModel {
    pub closed spec fn item_view(&self) -> Seq<char> {
        self.item_id@
    }

    pub closed spec fn patch_view(&self) -> DataComponentPatchModel {
        self.components
    }

    pub fn new(item_id: String, components: DataComponentPatchModel) -> (r: Self)
        ensures
            r.item_view() == item_id@,
            r.patch_view() == components,
    {
        ItemInputModel { item_id, components }
    }

    pub fn item_id(&self) -> (r: &str)
        ensures
            r@ == self.item_view(),
    {
        self.item_id.as_str()
    }

    pub fn components(&self) -> (r: &DataComponentPatchModel)
        ensures
            *r == self.patch_view(),
    {
        &self.components
    }

    pub fn copy(&self) -> (r: Self)
        ensures
            r.item_view() == self.item_view(),
            text_entries(r.patch_view().set_view().entries()) == text_entries(self.patch_view().set_view().entries()),
            r.patch_view().removed_view().entries() == self.patch_view().removed_view().entries(),
    {
        ItemInputModel { item_id: self.item_id.clone(), components: self.components.copy() }
    }

    /// A stack of `count` of the item with the set components: more than the
    /// item stacks to, or a component valued `malformed`, is an error.
    pub fn create_item_stack(&self, registry: &ItemRegistryModel, count: u32) -> (r: Result<ItemStackModel, ItemArgumentError>)
        requires
            registry.item(self.item_view()) is Some,
        ensures
            ({
                let max = registry.item(self.item_view())->0.max_view();
                let set = self.patch_view().set_view().entries();
                if count > max {
                    r matches Err(ItemArgumentError::StackTooBig { item, max: m }) && item@ == self.item_view() && m == max
                } else if has_malformed(set) {
                    r matches Err(ItemArgumentError::MalformedItem { message })
                        && message@ == "strict item validation failed"@
                } else {
                    r matches Ok(stack) && stack.item_view() == self.item_view() && stack.count_view() == count
                        && text_entries(stack.components_view().entries()) == text_entries(set)
                }
            }),
    {
        let max = match registry.item_max(self.item_id.as_str()) {
            Some(m) => m,
            None => 0,
        };
        if count > max {
            return Err(ItemArgumentError::StackTooBig { item: self.item_id.clone(), max });
        }
        let n = self.components.set.len();
        let mut i: usize = 0;
        while i < n
            invariant
                n == self.patch_view().set_view().entries().len(),
                0 <= i <= n,
                forall|k: int| 0 <= k < i ==> (#[trigger] self.patch_view().set_view().entries()[k]).1@ != "malformed"@,
            decreases n - i,
        {
            if str_eq(self.components.set.value_at(i).as_str(), "malformed") {
                return Err(ItemArgumentError::MalformedItem { message: "strict item validation failed".to_owned() });
            }
            i = i + 1;
        }
        Ok(ItemStackModel { item_id: self.item_id.clone(), count, components: self.components.set.copy() })
    }
}

impl ItemStackModel {
    pub closed spec fn item_view(&self) -> Seq<char> {
        self.item_id@
    }

    pub closed spec fn count_view(&self) -> u32 {
        self.count
    }

    pub closed spec fn components_view(&self) -> StrMap<String> {
        self.components
    }

    /// A stack of the item without components.
    pub fn new(item_id: &str, count: u32) -> (r: Self)
        ensures
            r.item_view() == normalized(item_id@),
            r.count_view() == count,
            r.components_view().entries().len() == 0,
    {
        ItemStackModel { item_id: normalize_id(item_id), count, components: StrMap::new() }
    }

    /// The stack with a component set to a value.
    pub fn with_component(self, id: &str, value: &str) -> (r: Self)
        ensures
            r.item_view() == self.item_view(),
            r.count_view() == self.count_view(),
            r.components_view().lookup(normalized(id@)) matches Some(x) && x@ == value@,
            forall|k: Seq<char>| k != normalized(id@) ==> #[trigger] r.components_view().lookup(k) == self.components_view().lookup(k),
    {
        let mut components = self.components;
        components.insert(normalize_id(id), value.to_owned());
        ItemStackModel { item_id: self.item_id, count: self.count, components }
    }

    pub fn copy(&self) -> (r: Self)
        ensures
            r.item_view() == self.item_view(),
            r.count_view() == self.count_view(),
            text_entries(r.components_view().entries()) == text_entries(self.components_view().entries()),
    {
        ItemStackModel { item_id: self.item_id.clone(), count: self.count, components: self.components.copy() }
    }
}

impl Clone for ItemStackModel {
    fn clone(&self) -> (r: Self)
        ensures
            r.item_view() == self.item_view(),
            r.count_view() == self.count_view(),
    {
        self.copy()
    }
}

impl Clone for ItemInputModel {
    fn clone(&self) -> (r: Self)
        ensures
            r.item_view() == self.item_view(),
    {
        self.copy()
    }
}

/// What a component reading gives for the reader at `p`, and where it
/// ends: an error at the end of the text, an invalid identifier, an unknown
/// (or not accepted) component, or the component's identifier.
pub open spec fn component_type_read(registry: ItemRegistryModel, v: Seq<u8>, p: int, allow_marker: bool)
    -> (Result<Seq<char>, ErrorView>, int)
{
    if p >= v.len() {
        (Err(ErrorView::ExpectedComponent(p)), p)
    } else {
        let e = scan_end(v, p, ident_stops());
        if e == p {
            (Err(ErrorView::InvalidIdentifier(p)), p)
        } else {
            let id = normalized(decode_utf8(v.subrange(p, e)));
            let c = registry.components_view().lookup(id);
            let ok = if allow_marker { parser_component(c) } else { codec_component(c) };
            if ok {
                (Ok(c->0.id_view()), e)
            } else {
                (Err(ErrorView::UnknownComponent(p, id)), p)
            }
        }
    }
}

/// The value of a text reading.
pub open spec fn text_result(r: Result<String, ItemArgumentError>) -> Result<Seq<char>, ErrorView> {
    match r {
        Ok(s) => Ok(s@),
        Err(e) => Err(e@),
    }
}

fn lookup_component(registry: &ItemRegistryModel, id: &String, need_codec: bool) -> (r: Option<String>)
    ensures
        ({
            let c = registry.components_view().lookup(id@);
            let ok = if need_codec { codec_component(c) } else { parser_component(c) };
            if ok { r matches Some(s) && c matches Some(d) && s@ == d.id_view() } else { r is None }
        }),
{
    match registry.components.get(id.as_str()) {
        Some(d) => {
            if !d.transient && (!need_codec || d.has_value_codec) {
                Some(d.id.clone())
            } else {
                None
            }
        },
        None => None,
    }
}

/// Reads a component identifier that the registry accepts (with
/// `allow_marker`, any that is not transient; else one with a value).
fn read_component_type(registry: &ItemRegistryModel, reader: &mut StringReaderModel, allow_marker: bool) -> (r: Result<String, ItemArgumentError>)
    requires
        old(reader).at_cut(),
    ensures
        advanced(*old(reader), *final(reader)),
        text_result(r) == component_type_read(*registry, old(reader).bytes(), old(reader).pos(), allow_marker).0,
        final(reader).pos() == component_type_read(*registry, old(reader).bytes(), old(reader).pos(), allow_marker).1,
{
    proof {
        reader.lemma_bytes();
    }
    if !reader.can_read() {
        return Err(ItemArgumentError::ExpectedComponent { cursor: reader.cursor() });
    }
    let start = reader.cursor();
    let id = match read_identifier(reader) {
        Ok(id) => id,
        Err(e) => {
            return Err(e);
        },
    };
    match lookup_component(registry, &id, !allow_marker) {
        Some(c) => Ok(c),
        None => {
            reader.set_cursor(start);
            proof {
                reader.lemma_bytes();
            }
            Err(ItemArgumentError::UnknownComponent { cursor: start, id })
        },
    }
}

/// `k` is the identifier of a registered component that is not transient.
pub open spec fn accepted_id(registry: ItemRegistryModel, k: Seq<char>) -> bool {
    exists|j: int| 0 <= j < registry.components_view().entries().len()
        && (#[trigger] registry.components_view().entries()[j]).1.id_view() == k
        && !registry.components_view().entries()[j].1.is_transient()
}

/// A parsed patch: it sets and removes accepted components, none of them
/// both, and no value the codec rejects.
pub open spec fn patch_valid(registry: ItemRegistryModel, patch: DataComponentPatchModel) -> bool {
    let set = patch.set_view();
    let removed = patch.removed_view();
    &&& forall|k: Seq<char>| #[trigger] set.lookup(k) is Some ==> accepted_id(registry, k) && removed.lookup(k) is None
        && set.lookup(k)->0@ != "bad"@
    &&& forall|k: Seq<char>| #[trigger] removed.lookup(k) is Some ==> accepted_id(registry, k)
}

proof fn lemma_lookup_accepted(registry: ItemRegistryModel, id: Seq<char>)
    requires
        parser_component(registry.components_view().lookup(id)),
    ensures
        accepted_id(registry, registry.components_view().lookup(id)->0.id_view()),
{
    let es = registry.components_view().entries();
    let p = crate::str_map::key_is::<ComponentDefinitionModel>(id);
    lemma_first_index_from(es, p, 0);
    let j = first_index(es, p);
    assert(es[j].1 == registry.components_view().lookup(id)->0);
}

/// The values set and the components removed, as a patch holds them.
pub open spec fn patch_maps(patch: DataComponentPatchModel) -> (Map<Seq<char>, Seq<char>>, Set<Seq<char>>) {
    (
        Map::new(|k: Seq<char>| patch.set_view().lookup(k) is Some, |k: Seq<char>| patch.set_view().lookup(k)->0@),
        Set::new(|k: Seq<char>| patch.removed_view().lookup(k) is Some),
    )
}

/// The value of a component list reading.
pub open spec fn patch_result(r: Result<DataComponentPatchModel, ItemArgumentError>)
    -> Result<(Map<Seq<char>, Seq<char>>, Set<Seq<char>>), ErrorView>
{
    match r {
        Ok(patch) => Ok(patch_maps(patch)),
        Err(e) => Err(e@),
    }
}

/// The end of a component list at `q`: `]`, or an error there.
pub open spec fn list_close(v: Seq<u8>, q: int, acc: (Map<Seq<char>, Seq<char>>, Set<Seq<char>>))
    -> (Result<(Map<Seq<char>, Seq<char>>, Set<Seq<char>>), ErrorView>, int)
{
    if 0 <= q < v.len() && v[q] == 93u8 {
        (Ok(acc), q + 1)
    } else {
        (Err(ErrorView::ExpectedChar(q, ']')), q)
    }
}

/// `= value` after the component `id`, which ends at `e`: the component is
/// set to the value, unless the codec rejects it (the value `bad`).
pub open spec fn entry_value(v: Seq<u8>, e: int, id: Seq<char>, acc: (Map<Seq<char>, Seq<char>>, Set<Seq<char>>))
    -> (Result<(Map<Seq<char>, Seq<char>>, Set<Seq<char>>), ErrorView>, int)
{
    let w = scan_end(v, e, ws_stops());
    if !(w < v.len() && v[w] == 61u8) {
        (Err(ErrorView::ExpectedChar(w, '=')), w)
    } else {
        let a = scan_end(v, w + 1, ws_stops());
        let val = value_read(v, a);
        match val.0 {
            Err(x) => (Err(x), val.1),
            Ok(value) => if value == "bad"@ {
                (Err(ErrorView::MalformedComponent(a, id, "component codec rejected value"@)), a)
            } else {
                (Ok((acc.0.insert(id, value), acc.1)), val.1)
            },
        }
    }
}

/// The entries of a component list from `q` on, after those in `acc` (the
/// values set and the components removed so far): `name=value` or `!name`,
/// separated by commas, each component at most once, up to the closing
/// `]`; and where the reading ends. (An entry that is read always moves
/// on, so the reading ends.)
pub open spec fn components_from(registry: ItemRegistryModel, v: Seq<u8>, q: int, acc: (Map<Seq<char>, Seq<char>>, Set<Seq<char>>))
    -> (Result<(Map<Seq<char>, Seq<char>>, Set<Seq<char>>), ErrorView>, int)
    decreases v.len() - q,
{
    if !(0 <= q < v.len() && v[q] != 93u8) {
        list_close(v, q, acc)
    } else {
        let w = scan_end(v, q, ws_stops());
        if w >= v.len() {
            list_close(v, w, acc)
        } else {
            let removal = v[w] == 33u8;
            let c = if removal { w + 1 } else { w };
            let t = component_type_read(registry, v, c, true);
            match t.0 {
                Err(x) => (Err(x), t.1),
                Ok(id) => if acc.0.contains_key(id) || acc.1.contains(id) {
                    (Err(ErrorView::RepeatedComponent(id)), t.1)
                } else {
                    let step = if removal { (Ok((acc.0, acc.1.insert(id))), t.1) } else { entry_value(v, t.1, id, acc) };
                    match step.0 {
                        Err(x) => (Err(x), step.1),
                        Ok(next) => {
                            let s = scan_end(v, step.1, ws_stops());
                            if s < v.len() && v[s] == 44u8 {
                                let n = scan_end(v, s + 1, ws_stops());
                                if n >= v.len() || n <= q {
                                    (Err(ErrorView::ExpectedComponent(n)), n)
                                } else {
                                    components_from(registry, v, n, next)
                                }
                            } else {
                                list_close(v, s, next)
                            }
                        },
                    }
                },
            }
        }
    }
}

/// A component list at `p`: `[`, then its entries.
pub open spec fn components_read(registry: ItemRegistryModel, v: Seq<u8>, p: int)
    -> (Result<(Map<Seq<char>, Seq<char>>, Set<Seq<char>>), ErrorView>, int)
{
    if 0 <= p < v.len() && v[p] == 91u8 {
        components_from(registry, v, p + 1, (Map::empty(), Set::empty()))
    } else {
        (Err(ErrorView::ExpectedChar(p, '[')), p)
    }
}

/// The component list `[...]` of an item: `name=value` or `!name`,
/// separated by commas.
#[verifier::rlimit(100)]
fn read_components(registry: &ItemRegistryModel, reader: &mut StringReaderModel) -> (r: Result<DataComponentPatchModel, ItemArgumentError>)
    requires
        old(reader).at_cut(),
    ensures
        advanced(*old(reader), *final(reader)),
        patch_result(r) == components_read(*registry, old(reader).bytes(), old(reader).pos()).0,
        final(reader).pos() == components_read(*registry, old(reader).bytes(), old(reader).pos()).1,
        r matches Ok(patch) ==> patch_valid(*registry, patch) && final(reader).pos() > old(reader).pos(),
{
    let ghost v = reader.bytes();
    let ghost start = old(reader).pos();
    match expect(reader, '[') {
        Ok(_) => {},
        Err(e) => {
            proof {
                reader.lemma_bytes();
            }
            return Err(e);
        },
    }
    let mut patch = DataComponentPatchModel { set: StrMap::new(), removed: StrMap::new() };
    let mut seen: StrMap<()> = StrMap::new();
    proof {
        assert(patch_maps(patch).0 =~= Map::<Seq<char>, Seq<char>>::empty());
        assert(patch_maps(patch).1 =~= Set::<Seq<char>>::empty());
    }
    loop
        invariant
            advanced(*old(reader), *reader),
            reader.bytes() == v,
            v == old(reader).bytes(),
            reader.pos() > start,
            start == old(reader).pos(),
            patch_valid(*registry, patch),
            forall|k: Seq<char>| #[trigger] seen.lookup(k) is Some <==> (patch.set_view().lookup(k) is Some || patch.removed_view().lookup(k) is Some),
            components_read(*registry, v, start) == components_from(*registry, v, reader.pos(), patch_maps(patch)),
        decreases reader.bytes().len() - reader.pos(),
    {
        proof {
            reader.lemma_bytes();
        }
        let ghost q = reader.pos();
        let ghost acc = patch_maps(patch);
        if !(reader.can_read() && reader.peek_byte() != 93) {
            break;
        }
        skip_whitespace(reader);
        proof {
            reader.lemma_bytes();
        }
        if !reader.can_read() {
            break;
        }
        let removed = reader.peek_byte() == 33;
        if removed {
            reader.skip();
            proof {
                reader.lemma_bytes();
                lemma_cut_after_ascii(reader.bytes(), reader.pos());
            }
        }
        let ghost comp_pos = reader.pos();
        let component = match read_component_type(registry, reader, true) {
            Ok(c) => c,
            Err(e) => {
                return Err(e);
            },
        };
        proof {
            let e = scan_end(v, comp_pos, ident_stops());
            let id = normalized(decode_utf8(v.subrange(comp_pos, e)));
            lemma_lookup_accepted(*registry, id);
        }
        let ghost cid = component@;
        if seen.contains(component.as_str()) {
            return Err(ItemArgumentError::RepeatedComponent { id: component });
        }
        seen.insert(component.clone(), ());
        if removed {
            let ghost before = patch.removed;
            patch.removed.insert(component, ());
            proof {
                assert forall|k: Seq<char>| #[trigger] patch.removed_view().lookup(k) is Some implies accepted_id(*registry, k) by {
                    if k != cid {
                        assert(patch.removed_view().lookup(k) == before.lookup(k));
                    }
                }
                assert(patch_maps(patch).0 =~= acc.0);
                assert(patch_maps(patch).1 =~= acc.1.insert(cid));
            }
        } else {
            skip_whitespace(reader);
            match expect(reader, '=') {
                Ok(_) => {},
                Err(e) => {
                    proof {
                        reader.lemma_bytes();
                    }
                    return Err(e);
                },
            }
            skip_whitespace(reader);
            let value_start = reader.cursor();
            let value = match read_value(reader) {
                Ok(v) => v,
                Err(e) => {
                    return Err(e);
                },
            };
            if str_eq(value.as_str(), "bad") {
                reader.set_cursor(value_start);
                proof {
                    reader.lemma_bytes();
                }
                return Err(ItemArgumentError::MalformedComponent {
                    cursor: value_start,
                    id: component,
                    message: "component codec rejected value".to_owned(),
                });
            }
            let ghost before = patch.set;
            let ghost val = value@;
            patch.set.insert(component, value);
            proof {
                assert forall|k: Seq<char>| #[trigger] patch.set_view().lookup(k) is Some implies accepted_id(*registry, k)
                    && patch.removed_view().lookup(k) is None && patch.set_view().lookup(k)->0@ != "bad"@ by {
                    if k != cid {
                        assert(patch.set_view().lookup(k) == before.lookup(k));
                    }
                }
                assert(patch_maps(patch).0 =~= acc.0.insert(cid, val));
                assert(patch_maps(patch).1 =~= acc.1);
            }
        }
        skip_whitespace(reader);
        proof {
            reader.lemma_bytes();
        }
        if reader.can_read() && reader.peek_byte() == 44 {
            reader.skip();
            proof {
                reader.lemma_bytes();
                lemma_cut_after_ascii(reader.bytes(), reader.pos());
            }
            skip_whitespace(reader);
            if !reader.can_read() {
                return Err(ItemArgumentError::ExpectedComponent { cursor: reader.cursor() });
            }
        } else {
            break;
        }
    }
    match expect(reader, ']') {
        Ok(_) => {},
        Err(e) => {
            return Err(e);
        },
    }
    Ok(patch)
}

/// An item identifier the registry knows, with an optional component list.
fn parse_inner(registry: &ItemRegistryModel, reader: &mut StringReaderModel) -> (r: Result<ItemInputModel, ItemArgumentError>)
    requires
        old(reader).at_cut(),
    ensures
        advanced(*old(reader), *final(reader)),
        ({
            let v = old(reader).bytes();
            let p = old(reader).pos();
            let e = scan_end(v, p, ident_stops());
            let id = normalized(decode_utf8(v.subrange(p, e)));
            if e == p {
                r == Err::<ItemInputModel, ItemArgumentError>(ItemArgumentError::InvalidIdentifier { cursor: p as usize })
                    && final(reader).pos() == p
            } else if registry.items_view().lookup(id) is None {
                r matches Err(ItemArgumentError::UnknownItem { cursor, id: x }) && cursor == p && x@ == id
                    && final(reader).pos() == p
            } else if e < v.len() && v[e] == 91u8 {
                let c = components_read(*registry, v, e);
                match c.0 {
                    Ok(maps) => r matches Ok(input) && input.item_view() == id && patch_maps(input.patch_view()) == maps
                        && patch_valid(*registry, input.patch_view()) && final(reader).pos() == c.1 && c.1 > e,
                    Err(x) => r matches Err(error) && error@ == x && final(reader).pos() == c.1,
                }
            } else {
                r matches Ok(input) && input.item_view() == id && input.patch_view().set_view().entries().len() == 0
                    && input.patch_view().removed_view().entries().len() == 0 && final(reader).pos() == e
            }
        }),
{
    let item_start = reader.cursor();
    let item_id = match read_identifier(reader) {
        Ok(id) => id,
        Err(e) => {
            return Err(e);
        },
    };
    if !registry.items.contains_key(item_id.as_str()) {
        reader.set_cursor(item_start);
        proof {
            reader.lemma_bytes();
        }
        return Err(ItemArgumentError::UnknownItem { cursor: item_start, id: item_id });
    }
    proof {
        reader.lemma_bytes();
    }
    let components = if reader.can_read() && reader.peek_byte() == 91 {
        match read_components(registry, reader) {
            Ok(c) => c,
            Err(e) => {
                return Err(e);
            },
        }
    } else {
        DataComponentPatchModel { set: StrMap::new(), removed: StrMap::new() }
    };
    Ok(ItemInputModel { item_id, components })
}

/// `parse_inner`, with the cursor back at the start on any error.
fn parse_item(registry: &ItemRegistryModel, reader: &mut StringReaderModel) -> (r: Result<ItemInputModel, ItemArgumentError>)
    requires
        old(reader).at_cut(),
    ensures
        advanced(*old(reader), *final(reader)),
        r is Err ==> final(reader).pos() == old(reader).pos(),
        ({
            let v = old(reader).bytes();
            let p = old(reader).pos();
            let e = scan_end(v, p, ident_stops());
            let id = normalized(decode_utf8(v.subrange(p, e)));
            if e == p {
                r == Err::<ItemInputModel, ItemArgumentError>(ItemArgumentError::InvalidIdentifier { cursor: p as usize })
            } else if registry.items_view().lookup(id) is None {
                r matches Err(ItemArgumentError::UnknownItem { cursor, id: x }) && cursor == p && x@ == id
            } else if e < v.len() && v[e] == 91u8 {
                let c = components_read(*registry, v, e);
                match c.0 {
                    Ok(maps) => r matches Ok(input) && input.item_view() == id && patch_maps(input.patch_view()) == maps
                        && patch_valid(*registry, input.patch_view()) && final(reader).pos() == c.1 && c.1 > e,
                    Err(x) => r matches Err(error) && error@ == x,
                }
            } else {
                r matches Ok(input) && input.item_view() == id && input.patch_view().set_view().entries().len() == 0
                    && input.patch_view().removed_view().entries().len() == 0 && final(reader).pos() == e
            }
        }),
{
    let start = reader.cursor();
    match parse_inner(registry, reader) {
        Ok(input) => Ok(input),
        Err(error) => {
            reader.set_cursor(start);
            proof {
                reader.lemma_bytes();
            }
            Err(error)
        },
    }
}

#[derive(Debug, Clone, PartialEq, Eq)]
pub struct ItemArgumentModel;

#[derive(Debug, Clone, PartialEq, Eq)]
pub struct CommandBuildContextModel;

pub open spec fn texts(v: Seq<String>) -> Seq<Seq<char>> {
    v.map_values(|s: String| s@)
}

/// The keys of the entries, in order.
pub open spec fn keys_of<V>(es: Seq<(Seq<char>, V)>) -> Seq<Seq<char>> {
    es.map_values(|e: (Seq<char>, V)| e.0)
}

/// `id=` for each component with a value that is not transient, in key order.
pub open spec fn value_component_hints(es: Seq<(Seq<char>, ComponentDefinitionModel)>) -> Seq<Seq<char>>
    decreases es.len(),
{
    if es.len() == 0 {
        seq![]
    } else {
        let rest = value_component_hints(es.drop_last());
        let d = es.last().1;
        if !d.is_transient() && d.has_codec() { rest.push(d.id_view() + "="@) } else { rest }
    }
}

fn ends_with_byte(s: &str, b: u8) -> (r: bool)
    ensures
        r == (s.spec_bytes().len() > 0 && s.spec_bytes().last() == b),
{
    let bytes = s.as_bytes();
    bytes.len() > 0 && bytes[bytes.len() - 1] == b
}

fn contains_byte(s: &str, b: u8) -> (r: bool)
    ensures
        r == s.spec_bytes().contains(b),
{
    let bytes = s.as_bytes();
    let mut i: usize = 0;
    while i < bytes.len()
        invariant
            bytes@ == s.spec_bytes(),
            0 <= i <= bytes@.len(),
            forall|k: int| 0 <= k < i ==> bytes@[k] != b,
        decreases bytes@.len() - i,
    {
        if bytes[i] == b {
            return true;
        }
        i = i + 1;
    }
    false
}

/// Where reading an item at `p` (its identifier, and a component list
/// when `[` follows a known item) stops.
pub open spec fn inner_end(registry: ItemRegistryModel, v: Seq<u8>, p: int) -> int {
    let e = scan_end(v, p, ident_stops());
    let id = normalized(decode_utf8(v.subrange(p, e)));
    if e == p || registry.items_view().lookup(id) is None {
        p
    } else if e < v.len() && v[e] == 91u8 {
        components_read(registry, v, e).1
    } else {
        e
    }
}

/// Whether an item, with its component list if `[` follows, reads at `p`.
pub open spec fn item_parses(registry: ItemRegistryModel, v: Seq<u8>, p: int) -> bool {
    let e = scan_end(v, p, ident_stops());
    let id = normalized(decode_utf8(v.subrange(p, e)));
    &&& e != p
    &&& registry.items_view().lookup(id) is Some
    &&& (e < v.len() && v[e] == 91u8 ==> components_read(registry, v, e).0 is Ok)
}

pub open spec fn ends_with_byte_spec(v: Seq<u8>, b: u8) -> bool {
    v.len() > 0 && v.last() == b
}

/// The completions offered for the typed text: every item when nothing is
/// typed; `[` when the text is a known item and nothing more; after `[` or
/// `,`, `!` and the components with a value; nothing after `=`; `,` and
/// `]` after a complete component list; else nothing.
pub open spec fn item_suggestions(registry: ItemRegistryModel, remaining: Seq<char>) -> Seq<Seq<char>> {
    let v = utf8(remaining);
    if remaining.len() == 0 {
        keys_of(registry.items_view().entries())
    } else if inner_end(registry, v, 0) == v.len() && registry.item(remaining) is Some {
        seq!["["@]
    } else if ends_with_byte_spec(v, 91u8) || ends_with_byte_spec(v, 44u8) {
        seq!["!"@] + value_component_hints(registry.components_view().entries())
    } else if ends_with_byte_spec(v, 61u8) {
        Seq::<Seq<char>>::empty()
    } else if item_parses(registry, v, 0) && v.contains(91u8) {
        seq![","@, "]"@]
    } else {
        Seq::<Seq<char>>::empty()
    }
}

fn fill_suggestions(registry: &ItemRegistryModel, remaining: &str) -> (r: Vec<String>)
    ensures
        texts(r@) == item_suggestions(*registry, remaining@),
{
    if remaining.unicode_len() == 0 {
        let n = registry.items.len();
        let mut out: Vec<String> = Vec::new();
        let mut i: usize = 0;
        while i < n
            invariant
                n == registry.items_view().entries().len(),
                0 <= i <= n,
                texts(out@) == keys_of(registry.items_view().entries()).subrange(0, i as int),
            decreases n - i,
        {
            out.push(registry.items.key_at(i).to_owned());
            i = i + 1;
            assert(texts(out@) =~= keys_of(registry.items_view().entries()).subrange(0, i as int));
        }
        assert(keys_of(registry.items_view().entries()).subrange(0, n as int) =~= keys_of(registry.items_view().entries()));
        return out;
    }
    let mut reader = StringReaderModel::new(remaining);
    let ghost v = reader.bytes();
    let _ = parse_inner(registry, &mut reader);
    let known = registry.items.contains_key(normalize_id(remaining).as_str());
    proof {
        reader.lemma_bytes();
    }
    if reader.cursor() == remaining.as_bytes().len() && known {
        let mut out: Vec<String> = Vec::new();
        out.push("[".to_owned());
        assert(texts(out@) =~= seq!["["@]);
        return out;
    }
    if ends_with_byte(remaining, 91) || ends_with_byte(remaining, 44) {
        let mut out: Vec<String> = Vec::new();
        out.push("!".to_owned());
        let n = registry.components.len();
        let mut i: usize = 0;
        while i < n
            invariant
                n == registry.components_view().entries().len(),
                0 <= i <= n,
                texts(out@) == seq!["!"@] + value_component_hints(registry.components_view().entries().subrange(0, i as int)),
            decreases n - i,
        {
            let d = registry.components.value_at(i);
            let ghost es = registry.components_view().entries();
            let ghost before = out@;
            assert(es.subrange(0, i + 1).drop_last() =~= es.subrange(0, i as int));
            assert(es.subrange(0, i + 1).last() == es[i as int]);
            if !d.transient && d.has_value_codec {
                let mut hint = d.id.clone();
                push_str(&mut hint, "=");
                out.push(hint);
                assert(texts(out@) =~= texts(before).push(d.id_view() + "="@));
            } else {
                assert(out@ == before);
            }
            i = i + 1;
            assert(texts(out@) =~= seq!["!"@] + value_component_hints(es.subrange(0, i as int)));
        }
        assert(registry.components_view().entries().subrange(0, n as int) =~= registry.components_view().entries());
        return out;
    }
    if ends_with_byte(remaining, 61) {
        let out: Vec<String> = Vec::new();
        assert(texts(out@) =~= Seq::<Seq<char>>::empty());
        return out;
    }
    let mut again = StringReaderModel::new(remaining);
    if parse_item(registry, &mut again).is_ok() && contains_byte(remaining, 91) {
        let mut out: Vec<String> = Vec::new();
        out.push(",".to_owned());
        out.push("]".to_owned());
        assert(texts(out@) =~= seq![","@, "]"@]);
        return out;
    }
    let out: Vec<String> = Vec::new();
    assert(texts(out@) =~= Seq::<Seq<char>>::empty());
    out
}

impl ItemArgumentModel {
    pub fn item(_context: &CommandBuildContextModel) -> (r: Self) {
        ItemArgumentModel
    }

    /// Parses an item with its component list; on an error the cursor goes
    /// back to the start.
    pub fn parse(&self, registry: &ItemRegistryModel, reader: &mut StringReaderModel) -> (r: Result<ItemInputModel, ItemArgumentError>)
        requires
            old(reader).at_cut(),
        ensures
            advanced(*old(reader), *final(reader)),
            r is Err ==> final(reader).pos() == old(reader).pos(),
            ({
                let v = old(reader).bytes();
                let p = old(reader).pos();
                let e = scan_end(v, p, ident_stops());
                let id = normalized(decode_utf8(v.subrange(p, e)));
                if e == p {
                    r == Err::<ItemInputModel, ItemArgumentError>(ItemArgumentError::InvalidIdentifier { cursor: p as usize })
                } else if registry.items_view().lookup(id) is None {
                    r matches Err(ItemArgumentError::UnknownItem { cursor, id: x }) && cursor == p && x@ == id
                } else if e < v.len() && v[e] == 91u8 {
                    let c = components_read(*registry, v, e);
                    match c.0 {
                        Ok(maps) => r matches Ok(input) && input.item_view() == id && patch_maps(input.patch_view()) == maps
                            && patch_valid(*registry, input.patch_view()) && final(reader).pos() == c.1 && c.1 > e,
                        Err(x) => r matches Err(error) && error@ == x,
                    }
                } else {
                    r matches Ok(input) && input.item_view() == id && input.patch_view().set_view().entries().len() == 0
                        && input.patch_view().removed_view().entries().len() == 0 && final(reader).pos() == e
                }
            }),
    {
        parse_item(registry, reader)
    }

    /// A copy of the item bound to `name`.
    pub fn get_item(context: &CommandContextModel, name: &str) -> (r: Option<ItemInputModel>)
        ensures
            r is Some <==> context.items_view().contains_key(name@),
            r matches Some(x) ==> x.item_view() == context.items_view()[name@].item_view()
                && text_entries(x.patch_view().set_view().entries())
                    == text_entries(context.items_view()[name@].patch_view().set_view().entries())
                && x.patch_view().removed_view().entries() == context.items_view()[name@].patch_view().removed_view().entries(),
    {
        match context.items.get(name) {
            Some(x) => Some(x.copy()),
            None => None,
        }
    }

    /// The completions for the builder's remaining text.
    pub fn list_suggestions(&self, registry: &ItemRegistryModel, builder: &mut SuggestionsBuilderModel) -> (r: Vec<String>)
        ensures
            final(builder).remaining_view() == old(builder).remaining_view(),
            *final(builder) == *old(builder),
            texts(r@) == item_suggestions(*registry, old(builder).remaining_view()),
    {
        fill_suggestions(registry, builder.remaining())
    }

    pub fn examples(&self) -> (r: [&'static str; 3])
        ensures
            r@[0]@ == "stick"@,
            r@[1]@ == "minecraft:stick"@,
            r@[2]@ == "stick{foo=bar}"@,
    {
        ["stick", "minecraft:stick", "stick{foo=bar}"]
    }
}

/// The bound arguments of a command: items and item predicates by name.
pub struct CommandContextModel {
    items: ArgMap<ItemInputModel>,
    predicates: ArgMap<ItemPredicateModel>,
}

impl CommandContextModel {
    pub closed spec fn items_view(&self) -> Map<Seq<char>, ItemInputModel> {
        self.items.view()
    }

    pub closed spec fn predicates_view(&self) -> Map<Seq<char>, ItemPredicateModel> {
        self.predicates.view()
    }

    /// The context with `name` bound to the item.
    pub fn with_item(self, name: &str, value: ItemInputModel) -> (r: Self)
        ensures
            r.items_view() == self.items_view().insert(name@, value),
            r.predicates_view() == self.predicates_view(),
    {
        let mut items = self.items;
        items.insert(name.to_owned(), value);
        CommandContextModel { items, predicates: self.predicates }
    }

    /// The context with `name` bound to the item predicate.
    pub fn with_predicate(self, name: &str, value: ItemPredicateModel) -> (r: Self)
        ensures
            r.predicates_view() == self.predicates_view().insert(name@, value),
            r.items_view() == self.items_view(),
    {
        let mut predicates = self.predicates;
        predicates.insert(name.to_owned(), value);
        CommandContextModel { items: self.items, predicates }
    }
}

impl Default for CommandContextModel {
    fn default() -> (r: Self)
        ensures
            r.items_view() == Map::<Seq<char>, ItemInputModel>::empty(),
            r.predicates_view() == Map::<Seq<char>, ItemPredicateModel>::empty(),
    {
        CommandContextModel { items: ArgMap::new(), predicates: ArgMap::new() }
    }
}

/// The stack counts that a count test admits: at least `min` and at most
/// `max`, where each is given.
#[derive(Debug, Clone, Copy, PartialEq, Eq)]
pub struct CountRangeModel {
    min: Option<u32>,
    max: Option<u32>,
}

impl CountRangeModel {
    pub closed spec fn min_view(&self) -> Option<u32> {
        self.min
    }

    pub closed spec fn max_view(&self) -> Option<u32> {
        self.max
    }

    fn exact(value: u32) -> (r: Self)
        ensures
            r.min_view() == Some(value),
            r.max_view() == Some(value),
    {
        CountRangeModel { min: Some(value), max: Some(value) }
    }

    fn admits_count(&self, count: u32) -> (r: bool)
        ensures
            r == count_admitted(self.min_view(), self.max_view(), count),
    {
        let low = match self.min {
            Some(m) => count >= m,
            None => true,
        };
        let high = match self.max {
            Some(m) => count <= m,
            None => true,
        };
        low && high
    }
}

/// Whether `count` lies within the bounds that are given.
pub open spec fn count_admitted(min: Option<u32>, max: Option<u32>, count: u32) -> bool {
    (min matches Some(m) ==> count >= m) && (max matches Some(m) ==> count <= m)
}

/// A test on item stacks.
#[derive(Debug, PartialEq, Eq)]
pub enum ItemPredicateModel {
    All(Vec<ItemPredicateModel>),
    Any(Vec<ItemPredicateModel>),
    Not(Box<ItemPredicateModel>),
    Item(String),
    Tag(String),
    AnyItem,
    ComponentPresent(String),
    ComponentEquals(String, String),
    PredicateValue(String, String),
    CountRange(CountRangeModel),
}

/// The value of an item predicate: identifiers and values as characters,
/// count ranges by their bounds.
pub enum PredicateView {
    All(Seq<PredicateView>),
    Any(Seq<PredicateView>),
    Not(Box<PredicateView>),
    Item(Seq<char>),
    Tag(Seq<char>),
    AnyItem,
    ComponentPresent(Seq<char>),
    ComponentEquals(Seq<char>, Seq<char>),
    PredicateValue(Seq<char>, Seq<char>),
    CountRange(Option<u32>, Option<u32>),
}

/// The values of a list of predicates, in order.
pub open spec fn preds_view(values: Seq<ItemPredicateModel>) -> Seq<PredicateView>
    decreases values,
{
    if values.len() == 0 {
        seq![]
    } else {
        preds_view(values.drop_last()).push(values.last().deep())
    }
}

impl ItemPredicateModel {
    /// The value of the predicate.
    pub open spec fn deep(&self) -> PredicateView
        decreases self,
    {
        match self {
            ItemPredicateModel::All(values) => PredicateView::All(preds_view(values@)),
            ItemPredicateModel::Any(values) => PredicateView::Any(preds_view(values@)),
            ItemPredicateModel::Not(value) => PredicateView::Not(Box::new(value.deep())),
            ItemPredicateModel::Item(id) => PredicateView::Item(id@),
            ItemPredicateModel::Tag(id) => PredicateView::Tag(id@),
            ItemPredicateModel::AnyItem => PredicateView::AnyItem,
            ItemPredicateModel::ComponentPresent(id) => PredicateView::ComponentPresent(id@),
            ItemPredicateModel::ComponentEquals(id, value) => PredicateView::ComponentEquals(id@, value@),
            ItemPredicateModel::PredicateValue(id, value) => PredicateView::PredicateValue(id@, value@),
            ItemPredicateModel::CountRange(range) => PredicateView::CountRange(range.min_view(), range.max_view()),
        }
    }
}

pub proof fn lemma_preds_view(values: Seq<ItemPredicateModel>)
    ensures
        preds_view(values).len() == values.len(),
        forall|i: int| 0 <= i < values.len() ==> #[trigger] preds_view(values)[i] == values[i].deep(),
    decreases values.len(),
{
    if values.len() > 0 {
        lemma_preds_view(values.drop_last());
        assert forall|i: int| 0 <= i < values.len() implies #[trigger] preds_view(values)[i] == values[i].deep() by {
            if i < values.len() - 1 {
                assert(values.drop_last()[i] == values[i]);
            }
        }
    }
}

proof fn lemma_preds_view_ext(a: Seq<ItemPredicateModel>, b: Seq<ItemPredicateModel>)
    requires
        a.len() == b.len(),
        forall|i: int| 0 <= i < a.len() ==> (#[trigger] a[i]).deep() == b[i].deep(),
    ensures
        preds_view(a) == preds_view(b),
{
    lemma_preds_view(a);
    lemma_preds_view(b);
    assert(preds_view(a) =~= preds_view(b));
}

/// Whether the predicate holds of the stack: `All` of every part and `Any`
/// of some part; a type, tag or component test by the stack's item and
/// components; a sub-predicate only for `minecraft:custom_data`, by its
/// value; a count range by the stack's count.
pub open spec fn holds(p: PredicateView, registry: ItemRegistryModel, stack: ItemStackModel) -> bool
    decreases p,
{
    match p {
        PredicateView::All(values) => all_hold(values, registry, stack),
        PredicateView::Any(values) => any_holds(values, registry, stack),
        PredicateView::Not(value) => !holds(*value, registry, stack),
        PredicateView::Item(id) => stack.item_view() == id,
        PredicateView::Tag(id) => registry.tags_view().lookup(normalized(id)) matches Some(set)
            && set.lookup(stack.item_view()) is Some,
        PredicateView::AnyItem => true,
        PredicateView::ComponentPresent(id) => stack.components_view().lookup(id) is Some,
        PredicateView::ComponentEquals(id, value) => stack.components_view().lookup(id) matches Some(x) && x@ == value,
        PredicateView::PredicateValue(id, value) => id == "minecraft:custom_data"@
            && (stack.components_view().lookup(id) matches Some(x) && x@ == value),
        PredicateView::CountRange(min, max) => count_admitted(min, max, stack.count_view()),
    }
}

/// A count test admits a stack exactly when its count is at or above the
/// lower bound and at or below the upper bound, each where it is given: a
/// count above the upper bound, or below the lower one, is never admitted.
pub proof fn lemma_count_range_bounds(min: Option<u32>, max: Option<u32>, registry: ItemRegistryModel, stack: ItemStackModel)
    ensures
        holds(PredicateView::CountRange(min, max), registry, stack) ==> (max matches Some(m) ==> stack.count_view() <= m),
        holds(PredicateView::CountRange(min, max), registry, stack) ==> (min matches Some(l) ==> stack.count_view() >= l),
        (max matches Some(m) && stack.count_view() > m) ==> !holds(PredicateView::CountRange(min, max), registry, stack),
        (min matches Some(l) && stack.count_view() < l) ==> !holds(PredicateView::CountRange(min, max), registry, stack),
        (min is None || stack.count_view() >= min->0) && (max is None || stack.count_view() <= max->0)
            ==> holds(PredicateView::CountRange(min, max), registry, stack),
{
}

pub open spec fn all_hold(values: Seq<PredicateView>, registry: ItemRegistryModel, stack: ItemStackModel) -> bool
    decreases values,
{
    if values.len() == 0 {
        true
    } else {
        all_hold(values.drop_last(), registry, stack) && holds(values.last(), registry, stack)
    }
}

pub open spec fn any_holds(values: Seq<PredicateView>, registry: ItemRegistryModel, stack: ItemStackModel) -> bool
    decreases values,
{
    if values.len() == 0 {
        false
    } else {
        any_holds(values.drop_last(), registry, stack) || holds(values.last(), registry, stack)
    }
}

/// A conjunction of tests holds exactly when every one of them holds.
pub proof fn lemma_all_hold(values: Seq<PredicateView>, registry: ItemRegistryModel, stack: ItemStackModel)
    ensures
        all_hold(values, registry, stack) <==> forall|i: int| 0 <= i < values.len() ==> holds(#[trigger] values[i], registry, stack),
    decreases values.len(),
{
    if values.len() > 0 {
        lemma_all_hold(values.drop_last(), registry, stack);
        if forall|i: int| 0 <= i < values.len() ==> holds(#[trigger] values[i], registry, stack) {
            assert forall|i: int| 0 <= i < values.len() - 1 implies holds(#[trigger] values.drop_last()[i], registry, stack) by {
                assert(values.drop_last()[i] == values[i]);
            }
        }
        if all_hold(values, registry, stack) {
            assert forall|i: int| 0 <= i < values.len() implies holds(#[trigger] values[i], registry, stack) by {
                if i < values.len() - 1 {
                    assert(values.drop_last()[i] == values[i]);
                }
            }
        }
    }
}

/// A disjunction of tests holds exactly when one of them holds.
pub proof fn lemma_any_holds(values: Seq<PredicateView>, registry: ItemRegistryModel, stack: ItemStackModel)
    ensures
        any_holds(values, registry, stack) <==> exists|i: int| 0 <= i < values.len() && holds(#[trigger] values[i], registry, stack),
    decreases values.len(),
{
    if values.len() > 0 {
        lemma_any_holds(values.drop_last(), registry, stack);
        if any_holds(values.drop_last(), registry, stack) {
            let i = choose|i: int| 0 <= i < values.len() - 1 && holds(#[trigger] values.drop_last()[i], registry, stack);
            assert(values.drop_last()[i] == values[i]);
        }
        if exists|i: int| 0 <= i < values.len() && holds(#[trigger] values[i], registry, stack) {
            let i = choose|i: int| 0 <= i < values.len() && holds(#[trigger] values[i], registry, stack);
            if i < values.len() - 1 {
                assert(values.drop_last()[i] == values[i]);
            }
        }
    }
}

impl ItemPredicateModel {
    /// Whether the predicate holds of the stack.
    pub fn test(&self, registry: &ItemRegistryModel, stack: &ItemStackModel) -> (r: bool)
        ensures
            r == holds(self.deep(), *registry, *stack),
        decreases self,
    {
        match self {
            ItemPredicateModel::All(values) => {
                proof {
                    lemma_preds_view(values@);
                    lemma_all_hold(preds_view(values@), *registry, *stack);
                }
                let mut i: usize = 0;
                while i < values.len()
                    invariant
                        0 <= i <= values@.len(),
                        forall|k: int| 0 <= k < i ==> holds(#[trigger] preds_view(values@)[k], *registry, *stack),
                    decreases values@.len() - i,
                {
                    let value = &values[i];
                    assert(decreases_to!(self => *value));
                    let ok = value.test(registry, stack);
                    assert(preds_view(values@)[i as int] == value.deep());
                    if !ok {
                        return false;
                    }
                    i = i + 1;
                }
                true
            },
            ItemPredicateModel::Any(values) => {
                proof {
                    lemma_preds_view(values@);
                    lemma_any_holds(preds_view(values@), *registry, *stack);
                }
                let mut i: usize = 0;
                while i < values.len()
                    invariant
                        0 <= i <= values@.len(),
                        forall|k: int| 0 <= k < i ==> !holds(#[trigger] preds_view(values@)[k], *registry, *stack),
                    decreases values@.len() - i,
                {
                    let value = &values[i];
                    assert(decreases_to!(self => *value));
                    let ok = value.test(registry, stack);
                    assert(preds_view(values@)[i as int] == value.deep());
                    if ok {
                        return true;
                    }
                    i = i + 1;
                }
                false
            },
            ItemPredicateModel::Not(value) => !value.test(registry, stack),
            ItemPredicateModel::Item(id) => str_eq(stack.item_id.as_str(), id.as_str()),
            ItemPredicateModel::Tag(id) => match registry.tags.get(normalize_id(id.as_str()).as_str()) {
                Some(set) => set.contains_key(stack.item_id.as_str()),
                None => false,
            },
            ItemPredicateModel::AnyItem => true,
            ItemPredicateModel::ComponentPresent(id) => stack.components.contains_key(id.as_str()),
            ItemPredicateModel::ComponentEquals(id, value) => match stack.components.get(id.as_str()) {
                Some(x) => str_eq(x.as_str(), value.as_str()),
                None => false,
            },
            ItemPredicateModel::PredicateValue(id, value) => {
                if !str_eq(id.as_str(), "minecraft:custom_data") {
                    return false;
                }
                match stack.components.get(id.as_str()) {
                    Some(x) => str_eq(x.as_str(), value.as_str()),
                    None => false,
                }
            },
            ItemPredicateModel::CountRange(range) => range.admits_count(stack.count),
        }
    }

    /// A copy of the predicate with the same value.
    pub fn copy(&self) -> (r: Self)
        ensures
            r.deep() == self.deep(),
        decreases self,
    {
        match self {
            ItemPredicateModel::All(values) => {
                let mut out: Vec<ItemPredicateModel> = Vec::new();
                let mut i: usize = 0;
                while i < values.len()
                    invariant
                        0 <= i <= values@.len(),
                        out@.len() == i,
                        forall|k: int| 0 <= k < i ==> (#[trigger] out@[k]).deep() == values@[k].deep(),
                    decreases values@.len() - i,
                {
                    let value = &values[i];
                    assert(decreases_to!(self => *value));
                    out.push(value.copy());
                    i = i + 1;
                }
                proof {
                    lemma_preds_view_ext(out@, values@);
                }
                ItemPredicateModel::All(out)
            },
            ItemPredicateModel::Any(values) => {
                let mut out: Vec<ItemPredicateModel> = Vec::new();
                let mut i: usize = 0;
                while i < values.len()
                    invariant
                        0 <= i <= values@.len(),
                        out@.len() == i,
                        forall|k: int| 0 <= k < i ==> (#[trigger] out@[k]).deep() == values@[k].deep(),
                    decreases values@.len() - i,
                {
                    let value = &values[i];
                    assert(decreases_to!(self => *value));
                    out.push(value.copy());
                    i = i + 1;
                }
                proof {
                    lemma_preds_view_ext(out@, values@);
                }
                ItemPredicateModel::Any(out)
            },
            ItemPredicateModel::Not(value) => ItemPredicateModel::Not(Box::new(value.copy())),
            ItemPredicateModel::Item(id) => ItemPredicateModel::Item(id.clone()),
            ItemPredicateModel::Tag(id) => ItemPredicateModel::Tag(id.clone()),
            ItemPredicateModel::AnyItem => ItemPredicateModel::AnyItem,
            ItemPredicateModel::ComponentPresent(id) => ItemPredicateModel::ComponentPresent(id.clone()),
            ItemPredicateModel::ComponentEquals(id, value) => ItemPredicateModel::ComponentEquals(id.clone(), value.clone()),
            ItemPredicateModel::PredicateValue(id, value) => ItemPredicateModel::PredicateValue(id.clone(), value.clone()),
            ItemPredicateModel::CountRange(range) => ItemPredicateModel::CountRange(*range),
        }
    }
}

impl Clone for ItemPredicateModel {
    fn clone(&self) -> (r: Self)
        ensures
            r.deep() == self.deep(),
    {
        self.copy()
    }
}

/// The value of an error: identifiers and messages as characters.
pub enum ErrorView {
    UnknownItem(int, Seq<char>),
    UnknownTag(int, Seq<char>),
    UnknownComponent(int, Seq<char>),
    UnknownPredicate(int, Seq<char>),
    RepeatedComponent(Seq<char>),
    ExpectedComponent(int),
    ExpectedChar(int, char),
    MalformedComponent(int, Seq<char>, Seq<char>),
    MalformedPredicate(int, Seq<char>, Seq<char>),
    StackTooBig(Seq<char>, u32),
    MalformedItem(Seq<char>),
    UnknownFunction(Seq<char>),
    UnknownFunctionTag(Seq<char>),
    InvalidIdentifier(int),
    InvalidValue(int),
}

impl ItemArgumentError {
    pub open spec fn view(&self) -> ErrorView {
        match self {
            ItemArgumentError::UnknownItem { cursor, id } => ErrorView::UnknownItem(*cursor as int, id@),
            ItemArgumentError::UnknownTag { cursor, id } => ErrorView::UnknownTag(*cursor as int, id@),
            ItemArgumentError::UnknownComponent { cursor, id } => ErrorView::UnknownComponent(*cursor as int, id@),
            ItemArgumentError::UnknownPredicate { cursor, id } => ErrorView::UnknownPredicate(*cursor as int, id@),
            ItemArgumentError::RepeatedComponent { id } => ErrorView::RepeatedComponent(id@),
            ItemArgumentError::ExpectedComponent { cursor } => ErrorView::ExpectedComponent(*cursor as int),
            ItemArgumentError::ExpectedChar { cursor, value } => ErrorView::ExpectedChar(*cursor as int, *value),
            ItemArgumentError::MalformedComponent { cursor, id, message } => ErrorView::MalformedComponent(
                *cursor as int,
                id@,
                message@,
            ),
            ItemArgumentError::MalformedPredicate { cursor, id, message } => ErrorView::MalformedPredicate(
                *cursor as int,
                id@,
                message@,
            ),
            ItemArgumentError::StackTooBig { item, max } => ErrorView::StackTooBig(item@, *max),
            ItemArgumentError::MalformedItem { message } => ErrorView::MalformedItem(message@),
            ItemArgumentError::UnknownFunction { id } => ErrorView::UnknownFunction(id@),
            ItemArgumentError::UnknownFunctionTag { id } => ErrorView::UnknownFunctionTag(id@),
            ItemArgumentError::InvalidIdentifier { cursor } => ErrorView::InvalidIdentifier(*cursor as int),
            ItemArgumentError::InvalidValue { cursor } => ErrorView::InvalidValue(*cursor as int),
        }
    }
}

/// The value of a predicate reading.
pub open spec fn pred_result(r: Result<ItemPredicateModel, ItemArgumentError>) -> Result<PredicateView, ErrorView> {
    match r {
        Ok(p) => Ok(p.deep()),
        Err(e) => Err(e@),
    }
}

/// The value of a reading of several predicates.
pub open spec fn preds_result(r: Result<Vec<ItemPredicateModel>, ItemArgumentError>) -> Result<Seq<PredicateView>, ErrorView> {
    match r {
        Ok(v) => Ok(preds_view(v@)),
        Err(e) => Err(e@),
    }
}

/// An identifier at `p`, and where it ends.
pub open spec fn ident_read(v: Seq<u8>, p: int) -> (Result<Seq<char>, ErrorView>, int) {
    let e = scan_end(v, p, ident_stops());
    if e == p {
        (Err(ErrorView::InvalidIdentifier(p)), p)
    } else {
        (Ok(normalized(decode_utf8(v.subrange(p, e)))), e)
    }
}

/// A value at `p`, and where it ends.
pub open spec fn value_read(v: Seq<u8>, p: int) -> (Result<Seq<char>, ErrorView>, int) {
    if p < v.len() && v[p] == 123u8 {
        let e = brace_close(v, p, 0);
        if e >= 0 {
            (Ok(decode_utf8(v.subrange(p, e))), e)
        } else {
            (Err(ErrorView::InvalidValue(p)), v.len() as int)
        }
    } else {
        let e = scan_end(v, p, value_stops());
        let t = trimmed(decode_utf8(v.subrange(p, e)));
        if t.len() == 0 {
            (Err(ErrorView::InvalidValue(p)), e)
        } else {
            (Ok(t), e)
        }
    }
}

/// The first position from `i` at which `..` stands, or -1.
pub open spec fn dots_from(v: Seq<u8>, i: int) -> int
    decreases v.len() - i,
{
    if i < 0 || i + 1 >= v.len() {
        -1
    } else if v[i] == 46u8 && v[i + 1] == 46u8 {
        i
    } else {
        dots_from(v, i + 1)
    }
}

/// A count bound: decimal digits with an optional `+`, that fit in a `u32`.
pub open spec fn bound_value(s: Seq<u8>) -> Option<u32> {
    match unsigned_decimal(s) {
        Some(n) => if n <= u32::MAX { Some(n as u32) } else { None },
        None => None,
    }
}

/// A count range: `n` for exactly `n`, or `min..max` where either bound may
/// be left out; a bound that is not a count is an error at `cursor`.
pub open spec fn count_range_read(cursor: int, s: Seq<u8>) -> Result<(Option<u32>, Option<u32>), ErrorView> {
    let d = dots_from(s, 0);
    if d < 0 {
        match bound_value(s) {
            Some(n) => Ok((Some(n), Some(n))),
            None => Err(ErrorView::InvalidValue(cursor)),
        }
    } else {
        let lo = s.subrange(0, d);
        let hi = s.subrange(d + 2, s.len() as int);
        if (lo.len() > 0 && bound_value(lo) is None) || (hi.len() > 0 && bound_value(hi) is None) {
            Err(ErrorView::InvalidValue(cursor))
        } else {
            Ok((if lo.len() == 0 { None } else { bound_value(lo) }, if hi.len() == 0 { None } else { bound_value(hi) }))
        }
    }
}

pub open spec fn count_test(cursor: int, value: Seq<char>) -> Result<PredicateView, ErrorView> {
    match count_range_read(cursor, utf8(value)) {
        Ok(bounds) => Ok(PredicateView::CountRange(bounds.0, bounds.1)),
        Err(x) => Err(x),
    }
}

/// A test at `p`: `id~value` (a sub-predicate, or a count range for
/// `minecraft:count`), `id=value` (a component's value, or a count range),
/// or `id` (a component's presence, or a count of at least one); and where
/// it ends when it is read.
pub open spec fn test_read(registry: ItemRegistryModel, v: Seq<u8>, p: int) -> (Result<PredicateView, ErrorView>, int) {
    let ident = ident_read(v, p);
    match ident.0 {
        Err(x) => (Err(x), p),
        Ok(id) => {
            let e = ident.1;
            if e < v.len() && (v[e] == 126u8 || v[e] == 61u8) {
                let val = value_read(v, e + 1);
                match val.0 {
                    Err(x) => (Err(x), p),
                    Ok(value) => if id == "minecraft:count"@ {
                        (count_test(e + 1, value), val.1)
                    } else if v[e] == 126u8 {
                        if registry.predicates_view().lookup(id) is None {
                            (Err(ErrorView::UnknownPredicate(p, id)), p)
                        } else if value == "bad"@ {
                            (Err(ErrorView::MalformedPredicate(e + 1, id, "predicate codec rejected value"@)), p)
                        } else {
                            (Ok(PredicateView::PredicateValue(id, value)), val.1)
                        }
                    } else {
                        let c = registry.component(id);
                        if !codec_component(c) {
                            (Err(ErrorView::UnknownComponent(p, id)), p)
                        } else if value == "bad"@ {
                            (Err(ErrorView::MalformedComponent(e + 1, c->0.id_view(), "component codec rejected value"@)), p)
                        } else {
                            (Ok(PredicateView::ComponentEquals(c->0.id_view(), value)), val.1)
                        }
                    },
                }
            } else if id == "minecraft:count"@ {
                (Ok(PredicateView::CountRange(Some(1u32), None)), e)
            } else if parser_component(registry.component(id)) {
                (Ok(PredicateView::ComponentPresent(registry.component(id)->0.id_view())), e)
            } else {
                (Err(ErrorView::UnknownComponent(p, id)), p)
            }
        },
    }
}

/// A test at `p`, negated when `!` comes first.
pub open spec fn term_read(registry: ItemRegistryModel, v: Seq<u8>, p: int) -> (Result<PredicateView, ErrorView>, int) {
    if p < v.len() && v[p] == 33u8 {
        let t = test_read(registry, v, p + 1);
        match t.0 {
            Ok(x) => (Ok(PredicateView::Not(Box::new(x))), t.1),
            Err(x) => (Err(x), p),
        }
    } else {
        test_read(registry, v, p)
    }
}

/// The terms that follow `|` at `p`, in order. (A term that is read always
/// moves on, so the reading ends.)
pub open spec fn terms_after(registry: ItemRegistryModel, v: Seq<u8>, p: int) -> (Result<Seq<PredicateView>, ErrorView>, int)
    decreases v.len() - p,
{
    if 0 <= p < v.len() && v[p] == 124u8 {
        let t = term_read(registry, v, p + 1);
        match t.0 {
            Err(x) => (Err(x), p),
            Ok(x) => if p < t.1 <= v.len() {
                let rest = terms_after(registry, v, t.1);
                match rest.0 {
                    Err(y) => (Err(y), rest.1),
                    Ok(xs) => (Ok(seq![x] + xs), rest.1),
                }
            } else {
                (Ok(seq![x]), t.1)
            },
        }
    } else {
        (Ok(seq![]), p)
    }
}

/// Terms separated by `|`: one term itself, more than one any of them.
pub open spec fn alternatives_read(registry: ItemRegistryModel, v: Seq<u8>, p: int) -> (Result<PredicateView, ErrorView>, int) {
    let t = term_read(registry, v, p);
    match t.0 {
        Err(x) => (Err(x), p),
        Ok(x) => {
            let rest = terms_after(registry, v, t.1);
            match rest.0 {
                Err(y) => (Err(y), p),
                Ok(xs) => (Ok(if xs.len() == 0 { x } else { PredicateView::Any(seq![x] + xs) }), rest.1),
            }
        },
    }
}

/// The alternatives that follow `,` at `p`, in order.
pub open spec fn conditions_after(registry: ItemRegistryModel, v: Seq<u8>, p: int) -> (Result<Seq<PredicateView>, ErrorView>, int)
    decreases v.len() - p,
{
    if 0 <= p < v.len() && v[p] == 44u8 {
        let a = alternatives_read(registry, v, p + 1);
        match a.0 {
            Err(x) => (Err(x), p),
            Ok(x) => if p < a.1 <= v.len() {
                let rest = conditions_after(registry, v, a.1);
                match rest.0 {
                    Err(y) => (Err(y), rest.1),
                    Ok(xs) => (Ok(seq![x] + xs), rest.1),
                }
            } else {
                (Ok(seq![x]), a.1)
            },
        }
    } else {
        (Ok(seq![]), p)
    }
}

/// Alternatives separated by `,`, in order.
pub open spec fn conditions_read(registry: ItemRegistryModel, v: Seq<u8>, p: int) -> (Result<Seq<PredicateView>, ErrorView>, int) {
    let a = alternatives_read(registry, v, p);
    match a.0 {
        Err(x) => (Err(x), p),
        Ok(x) => {
            let rest = conditions_after(registry, v, a.1);
            match rest.0 {
                Err(y) => (Err(y), p),
                Ok(xs) => (Ok(seq![x] + xs), rest.1),
            }
        },
    }
}

/// What a predicate starts with: `*` for any item, `#tag` for a known tag,
/// a known item, or nothing before `[`.
pub open spec fn head_read(registry: ItemRegistryModel, v: Seq<u8>, p: int) -> (Result<Seq<PredicateView>, ErrorView>, int) {
    if p < v.len() && v[p] == 42u8 {
        (Ok(seq![PredicateView::AnyItem]), p + 1)
    } else if p < v.len() && v[p] == 35u8 {
        let i = ident_read(v, p + 1);
        match i.0 {
            Err(x) => (Err(x), p),
            Ok(id) => if registry.tags_view().lookup(normalized(id)) is None {
                (Err(ErrorView::UnknownTag(p + 1, id)), p)
            } else {
                (Ok(seq![PredicateView::Tag(id)]), i.1)
            },
        }
    } else if p < v.len() && v[p] != 91u8 {
        let i = ident_read(v, p);
        match i.0 {
            Err(x) => (Err(x), p),
            Ok(id) => if registry.item(id) is None {
                (Err(ErrorView::UnknownItem(p, id)), p)
            } else {
                (Ok(seq![PredicateView::Item(id)]), i.1)
            },
        }
    } else {
        (Ok(seq![]), p)
    }
}

/// One test itself; any other number of tests all of them.
pub open spec fn all_of(tests: Seq<PredicateView>) -> PredicateView {
    if tests.len() == 1 { tests[0] } else { PredicateView::All(tests) }
}

/// An item predicate at `p`: its head, then the conditions in `[...]` if
/// a `[` follows; and where it ends when it is read.
pub open spec fn predicate_read(registry: ItemRegistryModel, v: Seq<u8>, p: int) -> (Result<PredicateView, ErrorView>, int) {
    let h = head_read(registry, v, p);
    match h.0 {
        Err(x) => (Err(x), p),
        Ok(hs) => {
            let e = h.1;
            if e < v.len() && v[e] == 91u8 {
                let c = if e + 1 < v.len() && v[e + 1] != 93u8 {
                    conditions_read(registry, v, e + 1)
                } else {
                    (Ok(seq![]), e + 1)
                };
                match c.0 {
                    Err(x) => (Err(x), p),
                    Ok(cs) => if c.1 < v.len() && v[c.1] == 93u8 {
                        (Ok(all_of(hs + cs)), c.1 + 1)
                    } else {
                        (Err(ErrorView::ExpectedChar(c.1, ']')), p)
                    },
                }
            } else {
                (Ok(all_of(hs)), e)
            }
        },
    }
}

proof fn lemma_dots_from(v: Seq<u8>, i: int)
    ensures
        dots_from(v, i) >= -1,
        dots_from(v, i) >= 0 ==> i <= dots_from(v, i) && dots_from(v, i) + 1 < v.len()
            && v[dots_from(v, i)] == 46u8 && v[dots_from(v, i) + 1] == 46u8,
    decreases v.len() - i,
{
    if !(i < 0 || i + 1 >= v.len()) && !(v[i] == 46u8 && v[i + 1] == 46u8) {
        lemma_dots_from(v, i + 1);
    }
}

fn find_dots(b: &[u8]) -> (r: Option<usize>)
    ensures
        match r {
            Some(i) => dots_from(b@, 0) == i,
            None => dots_from(b@, 0) < 0,
        },
{
    let mut i: usize = 0;
    while b.len() > 0 && i < b.len() - 1
        invariant
            0 <= i <= b@.len(),
            dots_from(b@, 0) == dots_from(b@, i as int),
        decreases b@.len() - i,
    {
        if b[i] == 46 && b[i + 1] == 46 {
            return Some(i);
        }
        i = i + 1;
    }
    None
}

/// `min..max`, either bound optional, or a single count.
fn parse_count_range(cursor: usize, value: &str) -> (r: Result<CountRangeModel, ItemArgumentError>)
    ensures
        match count_range_read(cursor as int, utf8(value@)) {
            Ok(bounds) => r matches Ok(c) && c.min_view() == bounds.0 && c.max_view() == bounds.1,
            Err(x) => r matches Err(e) && e@ == x,
        },
{
    let b = value.as_bytes();
    proof {
        lemma_dots_from(b@, 0);
    }
    match find_dots(b) {
        None => match parse_u32(b) {
            Some(n) => Ok(CountRangeModel::exact(n)),
            None => Err(ItemArgumentError::InvalidValue { cursor }),
        },
        Some(d) => {
            let n = b.len();
            assert(d + 1 < n);
            let lo = &b[0..d];
            let hi = &b[d + 2..n];
            let min = if lo.len() == 0 {
                None
            } else {
                match parse_u32(lo) {
                    Some(n) => Some(n),
                    None => return Err(ItemArgumentError::InvalidValue { cursor }),
                }
            };
            let max = if hi.len() == 0 {
                None
            } else {
                match parse_u32(hi) {
                    Some(n) => Some(n),
                    None => return Err(ItemArgumentError::InvalidValue { cursor }),
                }
            };
            Ok(CountRangeModel { min, max })
        },
    }
}

fn parse_test(registry: &ItemRegistryModel, reader: &mut StringReaderModel) -> (r: Result<ItemPredicateModel, ItemArgumentError>)
    requires
        old(reader).at_cut(),
    ensures
        advanced(*old(reader), *final(reader)),
        pred_result(r) == test_read(*registry, old(reader).bytes(), old(reader).pos()).0,
        r is Ok ==> final(reader).pos() == test_read(*registry, old(reader).bytes(), old(reader).pos()).1
            && final(reader).pos() > old(reader).pos(),
{
    let ghost v = reader.bytes();
    let start = reader.cursor();
    let id = match read_identifier(reader) {
        Ok(id) => id,
        Err(error) => return Err(error),
    };
    proof {
        reader.lemma_bytes();
    }
    if reader.can_read() && (reader.peek_byte() == 126 || reader.peek_byte() == 61) {
        let tilde = reader.peek_byte() == 126;
        reader.skip();
        proof {
            reader.lemma_bytes();
            lemma_cut_after_ascii(v, reader.pos());
        }
        let value_start = reader.cursor();
        let value = match read_value(reader) {
            Ok(value) => value,
            Err(error) => return Err(error),
        };
        if str_eq(id.as_str(), "minecraft:count") {
            return match parse_count_range(value_start, value.as_str()) {
                Ok(range) => Ok(ItemPredicateModel::CountRange(range)),
                Err(error) => Err(error),
            };
        }
        if tilde {
            if !registry.predicates.contains_key(id.as_str()) {
                reader.set_cursor(start);
                return Err(ItemArgumentError::UnknownPredicate { cursor: start, id });
            }
            if str_eq(value.as_str(), "bad") {
                reader.set_cursor(value_start);
                return Err(ItemArgumentError::MalformedPredicate {
                    cursor: value_start,
                    id,
                    message: "predicate codec rejected value".to_owned(),
                });
            }
            return Ok(ItemPredicateModel::PredicateValue(id, value));
        }
        let component = match registry.known_component(id.as_str(), true) {
            Some(component) => component,
            None => {
                reader.set_cursor(start);
                return Err(ItemArgumentError::UnknownComponent { cursor: start, id });
            },
        };
        if str_eq(value.as_str(), "bad") {
            reader.set_cursor(value_start);
            return Err(ItemArgumentError::MalformedComponent {
                cursor: value_start,
                id: component,
                message: "component codec rejected value".to_owned(),
            });
        }
        return Ok(ItemPredicateModel::ComponentEquals(component, value));
    }
    if str_eq(id.as_str(), "minecraft:count") {
        return Ok(ItemPredicateModel::CountRange(CountRangeModel { min: Some(1), max: None }));
    }
    match registry.known_component(id.as_str(), false) {
        Some(component) => Ok(ItemPredicateModel::ComponentPresent(component)),
        None => {
            reader.set_cursor(start);
            Err(ItemArgumentError::UnknownComponent { cursor: start, id })
        },
    }
}

fn parse_term(registry: &ItemRegistryModel, reader: &mut StringReaderModel) -> (r: Result<ItemPredicateModel, ItemArgumentError>)
    requires
        old(reader).at_cut(),
    ensures
        advanced(*old(reader), *final(reader)),
        pred_result(r) == term_read(*registry, old(reader).bytes(), old(reader).pos()).0,
        r is Ok ==> final(reader).pos() == term_read(*registry, old(reader).bytes(), old(reader).pos()).1
            && final(reader).pos() > old(reader).pos(),
{
    proof {
        reader.lemma_bytes();
    }
    if reader.can_read() && reader.peek_byte() == 33 {
        reader.skip();
        proof {
            reader.lemma_bytes();
            lemma_cut_after_ascii(reader.bytes(), reader.pos());
        }
        return match parse_test(registry, reader) {
            Ok(test) => Ok(ItemPredicateModel::Not(Box::new(test))),
            Err(error) => Err(error),
        };
    }
    parse_test(registry, reader)
}

/// Prefixes the values read so far to a later reading.
pub open spec fn prefixed(done: Seq<PredicateView>, rest: (Result<Seq<PredicateView>, ErrorView>, int)) -> Result<Seq<PredicateView>, ErrorView> {
    match rest.0 {
        Ok(xs) => Ok(done + xs),
        Err(x) => Err(x),
    }
}

fn parse_alternatives(registry: &ItemRegistryModel, reader: &mut StringReaderModel) -> (r: Result<ItemPredicateModel, ItemArgumentError>)
    requires
        old(reader).at_cut(),
    ensures
        advanced(*old(reader), *final(reader)),
        pred_result(r) == alternatives_read(*registry, old(reader).bytes(), old(reader).pos()).0,
        r is Ok ==> final(reader).pos() == alternatives_read(*registry, old(reader).bytes(), old(reader).pos()).1
            && final(reader).pos() > old(reader).pos(),
{
    let ghost v = reader.bytes();
    let first = match parse_term(registry, reader) {
        Ok(term) => term,
        Err(error) => return Err(error),
    };
    let ghost e0 = reader.pos();
    let mut values: Vec<ItemPredicateModel> = Vec::new();
    values.push(first);
    proof {
        lemma_preds_view(values@);
        assert(preds_view(values@).drop_first() =~= Seq::<PredicateView>::empty());
        assert(prefixed(preds_view(values@).drop_first(), terms_after(*registry, v, e0))
            =~= terms_after(*registry, v, e0).0);
    }
    while reader.can_read() && reader.peek_byte() == 124
        invariant
            advanced(*old(reader), *reader),
            reader.bytes() == v,
            v == old(reader).bytes(),
            e0 <= reader.pos(),
            e0 > old(reader).pos(),
            values@.len() >= 1,
            preds_view(values@)[0] == term_read(*registry, v, old(reader).pos()).0->Ok_0,
            terms_after(*registry, v, e0).0 == prefixed(preds_view(values@).drop_first(), terms_after(*registry, v, reader.pos())),
            terms_after(*registry, v, e0).1 == terms_after(*registry, v, reader.pos()).1,
        decreases v.len() - reader.pos(),
    {
        let ghost here = reader.pos();
        let ghost before = values@;
        reader.skip();
        proof {
            reader.lemma_bytes();
            lemma_cut_after_ascii(v, reader.pos());
        }
        let term = match parse_term(registry, reader) {
            Ok(term) => term,
            Err(error) => return Err(error),
        };
        values.push(term);
        proof {
            lemma_preds_view(before);
            lemma_preds_view(values@);
            let tv = term_read(*registry, v, here + 1).0->Ok_0;
            assert(preds_view(values@) =~= preds_view(before).push(tv));
            assert(preds_view(values@).drop_first() =~= preds_view(before).drop_first() + seq![tv]);
            let rest = terms_after(*registry, v, reader.pos());
            match rest.0 {
                Ok(xs) => {
                    assert(preds_view(before).drop_first() + (seq![tv] + xs) =~= preds_view(values@).drop_first() + xs);
                },
                Err(_) => {},
            }
        }
    }
    proof {
        lemma_preds_view(values@);
    }
    if values.len() == 1 {
        let ghost all = values@;
        assert(preds_view(all).drop_first() =~= Seq::<PredicateView>::empty());
        let only = values.remove(0);
        assert(only == all[0]);
        Ok(only)
    } else {
        proof {
            assert(seq![preds_view(values@)[0]] + preds_view(values@).drop_first() =~= preds_view(values@));
        }
        Ok(ItemPredicateModel::Any(values))
    }
}

fn parse_conditions(registry: &ItemRegistryModel, reader: &mut StringReaderModel) -> (r: Result<Vec<ItemPredicateModel>, ItemArgumentError>)
    requires
        old(reader).at_cut(),
    ensures
        advanced(*old(reader), *final(reader)),
        preds_result(r) == conditions_read(*registry, old(reader).bytes(), old(reader).pos()).0,
        r is Ok ==> final(reader).pos() == conditions_read(*registry, old(reader).bytes(), old(reader).pos()).1,
{
    let ghost v = reader.bytes();
    let first = match parse_alternatives(registry, reader) {
        Ok(alternatives) => alternatives,
        Err(error) => return Err(error),
    };
    let ghost e0 = reader.pos();
    let ghost x = first.deep();
    let mut values: Vec<ItemPredicateModel> = Vec::new();
    values.push(first);
    proof {
        lemma_preds_view(values@);
        assert(preds_view(values@).drop_first() =~= Seq::<PredicateView>::empty());
        assert(prefixed(preds_view(values@).drop_first(), conditions_after(*registry, v, e0))
            =~= conditions_after(*registry, v, e0).0);
    }
    while reader.can_read() && reader.peek_byte() == 44
        invariant
            advanced(*old(reader), *reader),
            reader.bytes() == v,
            v == old(reader).bytes(),
            e0 <= reader.pos(),
            values@.len() >= 1,
            preds_view(values@)[0] == x,
            conditions_after(*registry, v, e0).0 == prefixed(preds_view(values@).drop_first(), conditions_after(*registry, v, reader.pos())),
            conditions_after(*registry, v, e0).1 == conditions_after(*registry, v, reader.pos()).1,
        decreases v.len() - reader.pos(),
    {
        let ghost here = reader.pos();
        let ghost before = values@;
        reader.skip();
        proof {
            reader.lemma_bytes();
            lemma_cut_after_ascii(v, reader.pos());
        }
        let alternatives = match parse_alternatives(registry, reader) {
            Ok(alternatives) => alternatives,
            Err(error) => return Err(error),
        };
        values.push(alternatives);
        proof {
            lemma_preds_view(before);
            lemma_preds_view(values@);
            let av = alternatives_read(*registry, v, here + 1).0->Ok_0;
            assert(preds_view(values@) =~= preds_view(before).push(av));
            assert(preds_view(values@).drop_first() =~= preds_view(before).drop_first() + seq![av]);
            let rest = conditions_after(*registry, v, reader.pos());
            match rest.0 {
                Ok(xs) => {
                    assert(preds_view(before).drop_first() + (seq![av] + xs) =~= preds_view(values@).drop_first() + xs);
                },
                Err(_) => {},
            }
        }
    }
    proof {
        lemma_preds_view(values@);
        assert(seq![x] + preds_view(values@).drop_first() =~= preds_view(values@));
    }
    Ok(values)
}

fn parse_head(registry: &ItemRegistryModel, reader: &mut StringReaderModel) -> (r: Result<Vec<ItemPredicateModel>, ItemArgumentError>)
    requires
        old(reader).at_cut(),
    ensures
        advanced(*old(reader), *final(reader)),
        preds_result(r) == head_read(*registry, old(reader).bytes(), old(reader).pos()).0,
        r is Ok ==> final(reader).pos() == head_read(*registry, old(reader).bytes(), old(reader).pos()).1,
{
    proof {
        reader.lemma_bytes();
    }
    let ghost v = reader.bytes();
    let ghost p = reader.pos();
    let mut tests: Vec<ItemPredicateModel> = Vec::new();
    if reader.can_read() && reader.peek_byte() == 42 {
        reader.skip();
        proof {
            reader.lemma_bytes();
            lemma_cut_after_ascii(v, reader.pos());
        }
        tests.push(ItemPredicateModel::AnyItem);
    } else if reader.can_read() && reader.peek_byte() == 35 {
        reader.skip();
        proof {
            reader.lemma_bytes();
            lemma_cut_after_ascii(v, reader.pos());
        }
        let start = reader.cursor();
        let id = match read_identifier(reader) {
            Ok(id) => id,
            Err(error) => return Err(error),
        };
        if registry.tags.get(normalize_id(id.as_str()).as_str()).is_none() {
            reader.set_cursor(start);
            return Err(ItemArgumentError::UnknownTag { cursor: start, id });
        }
        tests.push(ItemPredicateModel::Tag(id));
    } else if reader.can_read() && reader.peek_byte() != 91 {
        let start = reader.cursor();
        let id = match read_identifier(reader) {
            Ok(id) => id,
            Err(error) => return Err(error),
        };
        if registry.item_max(id.as_str()).is_none() {
            reader.set_cursor(start);
            return Err(ItemArgumentError::UnknownItem { cursor: start, id });
        }
        tests.push(ItemPredicateModel::Item(id));
    }
    proof {
        lemma_preds_view(tests@);
        assert(preds_view(tests@) =~= head_read(*registry, v, p).0->Ok_0);
    }
    Ok(tests)
}

fn parse_top(registry: &ItemRegistryModel, reader: &mut StringReaderModel) -> (r: Result<ItemPredicateModel, ItemArgumentError>)
    requires
        old(reader).at_cut(),
    ensures
        advanced(*old(reader), *final(reader)),
        pred_result(r) == predicate_read(*registry, old(reader).bytes(), old(reader).pos()).0,
        r is Ok ==> final(reader).pos() == predicate_read(*registry, old(reader).bytes(), old(reader).pos()).1,
{
    proof {
        reader.lemma_bytes();
    }
    let ghost v = reader.bytes();
    let ghost p = reader.pos();
    let mut tests = match parse_head(registry, reader) {
        Ok(tests) => tests,
        Err(error) => return Err(error),
    };
    proof {
        reader.lemma_bytes();
    }
    if reader.can_read() && reader.peek_byte() == 91 {
        reader.skip();
        proof {
            reader.lemma_bytes();
            lemma_cut_after_ascii(v, reader.pos());
        }
        if reader.can_read() && reader.peek_byte() != 93 {
            let ghost heads = tests@;
            let conditions = match parse_conditions(registry, reader) {
                Ok(conditions) => conditions,
                Err(error) => return Err(error),
            };
            let mut conditions = conditions;
            let ghost cs = conditions@;
            tests.append(&mut conditions);
            proof {
                lemma_preds_view(heads);
                lemma_preds_view(cs);
                lemma_preds_view(tests@);
                assert(preds_view(tests@) =~= preds_view(heads) + preds_view(cs));
            }
        }
        let ghost at = reader.pos();
        let ghost e = head_read(*registry, v, p).1;
        let ghost c = if e + 1 < v.len() && v[e + 1] != 93u8 {
            conditions_read(*registry, v, e + 1)
        } else {
            (Ok(seq![]), e + 1)
        };
        assert(c.0 is Ok && c.1 == at);
        proof {
            reader.lemma_bytes();
        }
        match expect(reader, ']') {
            Ok(()) => {},
            Err(error) => {
                assert(error@ == ErrorView::ExpectedChar(at, ']'));
                return Err(error);
            },
        }
    }
    proof {
        lemma_preds_view(tests@);
    }
    if tests.len() == 1 {
        let ghost all = tests@;
        let only = tests.remove(0);
        assert(only == all[0]);
        Ok(only)
    } else {
        Ok(ItemPredicateModel::All(tests))
    }
}

#[derive(Debug, Clone, PartialEq, Eq)]
pub struct ItemPredicateArgumentModel;

impl ItemPredicateArgumentModel {
    pub fn item_predicate(_context: &CommandBuildContextModel) -> (r: Self) {
        ItemPredicateArgumentModel
    }

    /// Parses an item predicate; on an error the cursor goes back to the start.
    pub fn parse(&self, registry: &ItemRegistryModel, reader: &mut StringReaderModel) -> (r: Result<ItemPredicateModel, ItemArgumentError>)
        requires
            old(reader).at_cut(),
        ensures
            final(reader).text() == old(reader).text(),
            final(reader).at_cut(),
            pred_result(r) == predicate_read(*registry, old(reader).bytes(), old(reader).pos()).0,
            r is Ok ==> final(reader).pos() == predicate_read(*registry, old(reader).bytes(), old(reader).pos()).1,
            r is Err ==> final(reader).pos() == old(reader).pos(),
            old(reader).pos() <= final(reader).pos(),
    {
        let start = reader.cursor();
        match parse_top(registry, reader) {
            Ok(predicate) => Ok(predicate),
            Err(error) => {
                reader.set_cursor(start);
                Err(error)
            },
        }
    }

    /// A copy of the item predicate bound to `name`.
    pub fn get_item_predicate(context: &CommandContextModel, name: &str) -> (r: Option<ItemPredicateModel>)
        ensures
            r is Some <==> context.predicates_view().contains_key(name@),
            r matches Some(x) ==> x.deep() == context.predicates_view()[name@].deep(),
    {
        match context.predicates.get(name) {
            Some(x) => Some(x.copy()),
            None => None,
        }
    }

    pub fn examples(&self) -> (r: [&'static str; 4])
        ensures
            r@[0]@ == "stick"@,
            r@[1]@ == "minecraft:stick"@,
            r@[2]@ == "#stick"@,
            r@[3]@ == "#stick{foo:'bar'}"@,
    {
        ["stick", "minecraft:stick", "#stick", "#stick{foo:'bar'}"]
    }
}

/// A function: its identifier and its command lines.
#[derive(Debug, PartialEq, Eq)]
pub struct CommandFunctionModel {
    id: String,
    commands: Vec<String>,
}

/// The characters of each text, in order.
pub open spec fn strs_view(v: Seq<&str>) -> Seq<Seq<char>> {
    v.map_values(|c: &str| c@)
}

/// The value of a function: its identifier and its command lines.
pub open spec fn function_view(f: CommandFunctionModel) -> (Seq<char>, Seq<Seq<char>>) {
    f.view()
}

/// The values of a list of functions, in order.
pub open spec fn functions_view(fs: Seq<CommandFunctionModel>) -> Seq<(Seq<char>, Seq<Seq<char>>)> {
    fs.map_values(|f: CommandFunctionModel| function_view(f))
}

impl CommandFunctionModel {
    pub closed spec fn view(&self) -> (Seq<char>, Seq<Seq<char>>) {
        (self.id@, texts(self.commands@))
    }

    /// A function with the identifier (in the default namespace unless it
    /// names one) and the command lines.
    pub fn new(id: &str, commands: &[&str]) -> (r: Self)
        ensures
            r.view().0 == normalized(id@),
            r.view().1 == strs_view(commands@),
    {
        let mut lines: Vec<String> = Vec::new();
        let mut i: usize = 0;
        while i < commands.len()
            invariant
                0 <= i <= commands@.len(),
                texts(lines@) == strs_view(commands@.subrange(0, i as int)),
            decreases commands@.len() - i,
        {
            let ghost before = lines@;
            lines.push(commands[i].to_owned());
            assert(commands@.subrange(0, i + 1) =~= commands@.subrange(0, i as int).push(commands@[i as int]));
            assert(texts(lines@) =~= texts(before).push(commands@[i as int]@));
            i = i + 1;
            assert(texts(lines@) =~= strs_view(commands@.subrange(0, i as int)));
        }
        assert(commands@.subrange(0, commands@.len() as int) =~= commands@);
        CommandFunctionModel { id: normalize_id(id), commands: lines }
    }

    pub fn copy(&self) -> (r: Self)
        ensures
            r.view() == self.view(),
    {
        let mut lines: Vec<String> = Vec::new();
        let mut i: usize = 0;
        while i < self.commands.len()
            invariant
                0 <= i <= self.commands@.len(),
                texts(lines@) == texts(self.commands@).subrange(0, i as int),
            decreases self.commands@.len() - i,
        {
            lines.push(self.commands[i].clone());
            i = i + 1;
            assert(texts(lines@) =~= texts(self.commands@).subrange(0, i as int));
        }
        assert(texts(self.commands@).subrange(0, self.commands@.len() as int) =~= texts(self.commands@));
        CommandFunctionModel { id: self.id.clone(), commands: lines }
    }
}

impl Clone for CommandFunctionModel {
    fn clone(&self) -> (r: Self)
        ensures
            r.view() == self.view(),
    {
        self.copy()
    }
}

fn copy_functions(fs: &Vec<CommandFunctionModel>) -> (r: Vec<CommandFunctionModel>)
    ensures
        functions_view(r@) == functions_view(fs@),
{
    let mut out: Vec<CommandFunctionModel> = Vec::new();
    let mut i: usize = 0;
    while i < fs.len()
        invariant
            0 <= i <= fs@.len(),
            functions_view(out@) == functions_view(fs@).subrange(0, i as int),
        decreases fs@.len() - i,
    {
        out.push(fs[i].copy());
        i = i + 1;
        assert(functions_view(out@) =~= functions_view(fs@).subrange(0, i as int));
    }
    assert(functions_view(fs@).subrange(0, fs@.len() as int) =~= functions_view(fs@));
    out
}

/// The functions and function tags that are loaded.
pub struct CommandFunctionManagerModel {
    functions: StrMap<CommandFunctionModel>,
    tags: StrMap<Vec<CommandFunctionModel>>,
}

impl CommandFunctionManagerModel {
    pub closed spec fn functions_by_id(&self) -> StrMap<CommandFunctionModel> {
        self.functions
    }

    pub closed spec fn tags_by_id(&self) -> StrMap<Vec<CommandFunctionModel>> {
        self.tags
    }

    /// Loads a function under its identifier.
    pub fn with_function(self, function: CommandFunctionModel) -> (r: Self)
        ensures
            forall|k: Seq<char>| #[trigger] r.functions_by_id().lookup(k)
                == if k == function.view().0 { Some(function) } else { self.functions_by_id().lookup(k) },
            r.tags_by_id() == self.tags_by_id(),
    {
        let mut functions = self.functions;
        let id = function.id.clone();
        functions.insert(id, function);
        CommandFunctionManagerModel { functions, tags: self.tags }
    }

    /// Loads a function tag with its functions (in the default namespace
    /// unless the identifier names one).
    pub fn with_tag(self, id: &str, functions: Vec<CommandFunctionModel>) -> (r: Self)
        ensures
            forall|k: Seq<char>| #[trigger] r.tags_by_id().lookup(k)
                == if k == normalized(id@) { Some(functions) } else { self.tags_by_id().lookup(k) },
            r.functions_by_id() == self.functions_by_id(),
    {
        let mut tags = self.tags;
        tags.insert(normalize_id(id), functions);
        CommandFunctionManagerModel { functions: self.functions, tags }
    }
}

impl Default for CommandFunctionManagerModel {
    fn default() -> (r: Self)
        ensures
            r.functions_by_id().entries().len() == 0,
            r.tags_by_id().entries().len() == 0,
    {
        CommandFunctionManagerModel { functions: StrMap::new(), tags: StrMap::new() }
    }
}

/// A parsed function argument: a function or a function tag, by identifier.
#[derive(Debug, Clone, PartialEq, Eq)]
pub enum FunctionResultModel {
    Function(String),
    Tag(String),
}

/// What a function argument resolves to: one function, or a tag's functions,
/// with the identifier it was given by.
#[derive(Debug, PartialEq, Eq)]
pub enum FunctionUnwrapModel {
    Function(String, CommandFunctionModel),
    Tag(String, Vec<CommandFunctionModel>),
}

/// The context in which function arguments are resolved.
pub struct CommandFunctionContextModel {
    manager: CommandFunctionManagerModel,
    arguments: ArgMap<FunctionResultModel>,
}

impl CommandFunctionContextModel {
    pub closed spec fn manager_view(&self) -> CommandFunctionManagerModel {
        self.manager
    }

    pub closed spec fn arguments_view(&self) -> Map<Seq<char>, FunctionResultModel> {
        self.arguments.view()
    }

    pub fn new(manager: CommandFunctionManagerModel) -> (r: Self)
        ensures
            r.manager_view() == manager,
            r.arguments_view() == Map::<Seq<char>, FunctionResultModel>::empty(),
    {
        CommandFunctionContextModel { manager, arguments: ArgMap::new() }
    }

    /// The context with `name` bound to the parsed argument.
    pub fn with_argument(self, name: &str, value: FunctionResultModel) -> (r: Self)
        ensures
            r.manager_view() == self.manager_view(),
            r.arguments_view() == self.arguments_view().insert(name@, value),
    {
        let mut arguments = self.arguments;
        arguments.insert(name.to_owned(), value);
        CommandFunctionContextModel { manager: self.manager, arguments }
    }
}

/// The functions that a parsed argument stands for in the context: the one
/// function, or the tag's functions in order; an unknown one is an error.
pub open spec fn functions_for(context: CommandFunctionContextModel, arg: FunctionResultModel)
    -> Result<Seq<(Seq<char>, Seq<Seq<char>>)>, ErrorView>
{
    match arg {
        FunctionResultModel::Function(id) => match context.manager_view().functions_by_id().lookup(id@) {
            Some(f) => Ok(seq![function_view(f)]),
            None => Err(ErrorView::UnknownFunction(id@)),
        },
        FunctionResultModel::Tag(id) => match context.manager_view().tags_by_id().lookup(id@) {
            Some(fs) => Ok(functions_view(fs@)),
            None => Err(ErrorView::UnknownFunctionTag(id@)),
        },
    }
}

/// The value of a list of functions found, or of the error.
pub open spec fn functions_result(r: Result<Vec<CommandFunctionModel>, ItemArgumentError>) -> Result<Seq<(Seq<char>, Seq<Seq<char>>)>, ErrorView> {
    match r {
        Ok(fs) => Ok(functions_view(fs@)),
        Err(e) => Err(e@),
    }
}

impl FunctionResultModel {
    fn create(&self, context: &CommandFunctionContextModel) -> (r: Result<Vec<CommandFunctionModel>, ItemArgumentError>)
        ensures
            functions_result(r) == functions_for(*context, *self),
    {
        match self {
            FunctionResultModel::Function(id) => match context.manager.functions.get(id.as_str()) {
                Some(f) => {
                    let mut out: Vec<CommandFunctionModel> = Vec::new();
                    out.push(f.copy());
                    assert(functions_view(out@) =~= seq![function_view(*f)]);
                    Ok(out)
                },
                None => Err(ItemArgumentError::UnknownFunction { id: id.clone() }),
            },
            FunctionResultModel::Tag(id) => match context.manager.tags.get(id.as_str()) {
                Some(fs) => Ok(copy_functions(fs)),
                None => Err(ItemArgumentError::UnknownFunctionTag { id: id.clone() }),
            },
        }
    }

    fn unwrap(&self, context: &CommandFunctionContextModel) -> (r: Result<FunctionUnwrapModel, ItemArgumentError>)
        ensures
            match functions_for(*context, *self) {
                Ok(fs) => r matches Ok(u) && match (u, *self) {
                    (FunctionUnwrapModel::Function(uid, f), FunctionResultModel::Function(id)) => uid@ == id@
                        && seq![function_view(f)] == fs,
                    (FunctionUnwrapModel::Tag(uid, gs), FunctionResultModel::Tag(id)) => uid@ == id@
                        && functions_view(gs@) == fs,
                    _ => false,
                },
                Err(x) => r matches Err(e) && e@ == x,
            },
    {
        match self {
            FunctionResultModel::Function(id) => match context.manager.functions.get(id.as_str()) {
                Some(f) => Ok(FunctionUnwrapModel::Function(id.clone(), f.copy())),
                None => Err(ItemArgumentError::UnknownFunction { id: id.clone() }),
            },
            FunctionResultModel::Tag(id) => match context.manager.tags.get(id.as_str()) {
                Some(fs) => Ok(FunctionUnwrapModel::Tag(id.clone(), copy_functions(fs))),
                None => Err(ItemArgumentError::UnknownFunctionTag { id: id.clone() }),
            },
        }
    }

    fn unwrap_to_collection(&self, context: &CommandFunctionContextModel) -> (r: Result<(String, Vec<CommandFunctionModel>), ItemArgumentError>)
        ensures
            match functions_for(*context, *self) {
                Ok(fs) => r matches Ok(pair) && pair.0@ == self.id_view() && functions_view(pair.1@) == fs,
                Err(x) => r matches Err(e) && e@ == x,
            },
    {
        match self.unwrap(context) {
            Ok(FunctionUnwrapModel::Function(id, function)) => {
                let mut out: Vec<CommandFunctionModel> = Vec::new();
                let ghost f = function;
                out.push(function);
                assert(functions_view(out@) =~= seq![function_view(f)]);
                Ok((id, out))
            },
            Ok(FunctionUnwrapModel::Tag(id, functions)) => Ok((id, functions)),
            Err(error) => Err(error),
        }
    }

    /// The identifier the argument was given by.
    pub open spec fn id_view(&self) -> Seq<char> {
        match self {
            FunctionResultModel::Function(id) => id@,
            FunctionResultModel::Tag(id) => id@,
        }
    }
}

#[derive(Debug, Clone, PartialEq, Eq)]
pub struct FunctionArgumentModel;

impl FunctionArgumentModel {
    pub fn functions() -> (r: Self) {
        FunctionArgumentModel
    }

    /// A function identifier, or `#` and a tag identifier; nothing is looked up.
    pub fn parse(&self, reader: &mut StringReaderModel) -> (r: Result<FunctionResultModel, ItemArgumentError>)
        requires
            old(reader).at_cut(),
        ensures
            advanced(*old(reader), *final(reader)),
            ({
                let v = old(reader).bytes();
                let p = old(reader).pos();
                let tag = p < v.len() && v[p] == 35u8;
                let i = ident_read(v, if tag { p + 1 } else { p });
                match i.0 {
                    Ok(id) => r matches Ok(x) && x.id_view() == id && (x is Tag <==> tag) && final(reader).pos() == i.1,
                    Err(e) => r matches Err(x) && x@ == e,
                }
            }),
    {
        proof {
            reader.lemma_bytes();
        }
        if reader.can_read() && reader.peek_byte() == 35 {
            reader.skip();
            proof {
                reader.lemma_bytes();
                lemma_cut_after_ascii(reader.bytes(), reader.pos());
            }
            match read_identifier(reader) {
                Ok(id) => Ok(FunctionResultModel::Tag(id)),
                Err(error) => Err(error),
            }
        } else {
            match read_identifier(reader) {
                Ok(id) => Ok(FunctionResultModel::Function(id)),
                Err(error) => Err(error),
            }
        }
    }

    /// The functions that the argument bound to `name` stands for.
    pub fn get_functions(context: &CommandFunctionContextModel, name: &str) -> (r: Result<Vec<CommandFunctionModel>, ItemArgumentError>)
        requires
            context.arguments_view().contains_key(name@),
        ensures
            functions_result(r) == functions_for(*context, context.arguments_view()[name@]),
    {
        match context.arguments.get(name) {
            Some(argument) => argument.create(context),
            None => Err(ItemArgumentError::UnknownFunction { id: name.to_owned() }),
        }
    }

    /// The function or tag that the argument bound to `name` stands for.
    pub fn get_function_or_tag(context: &CommandFunctionContextModel, name: &str) -> (r: Result<FunctionUnwrapModel, ItemArgumentError>)
        requires
            context.arguments_view().contains_key(name@),
        ensures
            ({
                let arg = context.arguments_view()[name@];
                match functions_for(*context, arg) {
                    Ok(fs) => r matches Ok(u) && match (u, arg) {
                        (FunctionUnwrapModel::Function(uid, f), FunctionResultModel::Function(id)) => uid@ == id@
                            && seq![function_view(f)] == fs,
                        (FunctionUnwrapModel::Tag(uid, gs), FunctionResultModel::Tag(id)) => uid@ == id@
                            && functions_view(gs@) == fs,
                        _ => false,
                    },
                    Err(x) => r matches Err(e) && e@ == x,
                }
            }),
    {
        match context.arguments.get(name) {
            Some(argument) => argument.unwrap(context),
            None => Err(ItemArgumentError::UnknownFunction { id: name.to_owned() }),
        }
    }

    /// The identifier and the functions that the argument bound to `name`
    /// stands for.
    pub fn get_function_collection(context: &CommandFunctionContextModel, name: &str) -> (r: Result<(String, Vec<CommandFunctionModel>), ItemArgumentError>)
        requires
            context.arguments_view().contains_key(name@),
        ensures
            ({
                let arg = context.arguments_view()[name@];
                match functions_for(*context, arg) {
                    Ok(fs) => r matches Ok(pair) && pair.0@ == arg.id_view() && functions_view(pair.1@) == fs,
                    Err(x) => r matches Err(e) && e@ == x,
                }
            }),
    {
        match context.arguments.get(name) {
            Some(argument) => argument.unwrap_to_collection(context),
            None => Err(ItemArgumentError::UnknownFunction { id: name.to_owned() }),
        }
    }

    pub fn examples(&self) -> (r: [&'static str; 3])
        ensures
            r@[0]@ == "foo"@,
            r@[1]@ == "foo:bar"@,
            r@[2]@ == "#foo"@,
    {
        ["foo", "foo:bar", "#foo"]
    }
}

} // verus!
