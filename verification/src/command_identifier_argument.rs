//! The `id` argument: a resource identifier `namespace:path`, where the
//! namespace defaults to `minecraft`.

use vstd::prelude::*;
use vstd::string::StringSliceAdditionalSpecFns;
use crate::text::{utf8, cut_point, str_eq, push_str, is_ascii_digit_byte, is_ascii_lowercase_byte, lemma_utf8_injective,
    lemma_utf8_concat};
use crate::string_reader::{lemma_cut_at_ascii, lemma_cut_after_ascii};
use crate::arg_map::ArgMap;
pub use crate::string_reader::StringReaderModel;

verus! {

broadcast use vstd::utf8::encode_utf8_decode_utf8, vstd::utf8::encode_utf8_valid_utf8;

#[derive(Debug, Clone, PartialEq, Eq)]
pub struct IdentifierArgumentModel;

#[derive(Debug, Clone, PartialEq, Eq)]
pub enum IdentifierArgumentParseError {
    InvalidIdentifier,
}

#[derive(Debug, PartialEq, Eq, Hash)]
pub struct CommandIdentifierModel {
    namespace: String,
    path: String,
}

pub struct CommandContextModel {
    arguments: ArgMap<CommandIdentifierModel>,
}

pub open spec fn namespace_byte(b: u8) -> bool {
    is_ascii_digit_byte(b) || is_ascii_lowercase_byte(b) || b == 95 || b == 46 || b == 45
}

pub open spec fn path_byte(b: u8) -> bool {
    is_ascii_digit_byte(b) || is_ascii_lowercase_byte(b) || b == 95 || b == 45 || b == 47 || b == 46
}

/// The bytes that an identifier token may hold.
pub open spec fn identifier_byte(b: u8) -> bool {
    is_ascii_digit_byte(b) || is_ascii_lowercase_byte(b) || b == 95 || b == 58 || b == 47 || b == 46 || b == 45
}

pub open spec fn valid_namespace(ns: Seq<u8>) -> bool {
    &&& ns != seq![46u8, 46u8]
    &&& forall|i: int| 0 <= i < ns.len() ==> namespace_byte(#[trigger] ns[i])
}

pub open spec fn valid_path(p: Seq<u8>) -> bool {
    forall|i: int| 0 <= i < p.len() ==> path_byte(#[trigger] p[i])
}

/// The first index at or after `from` that holds byte `b`, or the length.
pub open spec fn find_byte(v: Seq<u8>, b: u8, from: int) -> int
    decreases v.len() - from,
{
    if from >= v.len() || v[from] == b {
        from
    } else {
        find_byte(v, b, from + 1)
    }
}

pub proof fn lemma_find_byte(v: Seq<u8>, b: u8, from: int)
    requires
        0 <= from <= v.len(),
    ensures
        from <= find_byte(v, b, from) <= v.len(),
        forall|i: int| from <= i < find_byte(v, b, from) ==> #[trigger] v[i] != b,
        find_byte(v, b, from) < v.len() ==> v[find_byte(v, b, from)] == b,
    decreases v.len() - from,
{
    if from < v.len() && v[from] != b {
        lemma_find_byte(v, b, from + 1);
    }
}

/// The end of the greedy identifier token that starts at `from`.
pub open spec fn identifier_end(v: Seq<u8>, from: int) -> int
    decreases v.len() - from,
{
    if from >= v.len() || !identifier_byte(v[from]) {
        from
    } else {
        identifier_end(v, from + 1)
    }
}

pub proof fn lemma_identifier_end(v: Seq<u8>, from: int)
    requires
        0 <= from <= v.len(),
    ensures
        from <= identifier_end(v, from) <= v.len(),
        forall|i: int| from <= i < identifier_end(v, from) ==> identifier_byte(#[trigger] v[i]),
        identifier_end(v, from) < v.len() ==> !identifier_byte(v[identifier_end(v, from)]),
    decreases v.len() - from,
{
    if from < v.len() && identifier_byte(v[from]) {
        lemma_identifier_end(v, from + 1);
    }
}

/// The namespace and path bytes of an identifier text: split at the first
/// `:`; no colon, or a colon first, means the default namespace.
pub open spec fn split_identifier(v: Seq<u8>) -> (Seq<u8>, Seq<u8>) {
    let c = find_byte(v, 58, 0);
    if c >= v.len() {
        (utf8("minecraft"@), v)
    } else if c == 0 {
        (utf8("minecraft"@), v.subrange(1, v.len() as int))
    } else {
        (v.subrange(0, c), v.subrange(c + 1, v.len() as int))
    }
}

/// `Identifier.parse`: the namespace and path bytes, when both are valid.
pub open spec fn parse_identifier(v: Seq<u8>) -> Option<(Seq<u8>, Seq<u8>)> {
    let (ns, p) = split_identifier(v);
    if valid_namespace(ns) && valid_path(p) { Some((ns, p)) } else { None }
}

fn is_allowed_in_identifier(b: u8) -> (r: bool)
    ensures
        r == identifier_byte(b),
{
    (48 <= b && b <= 57) || (97 <= b && b <= 122) || b == 95 || b == 58 || b == 47 || b == 46 || b == 45
}

fn is_valid_namespace(ns: &str) -> (r: bool)
    ensures
        r == valid_namespace(ns.spec_bytes()),
{
    let b = ns.as_bytes();
    if b.len() == 2 && b[0] == 46 && b[1] == 46 {
        assert(b@ =~= seq![46u8, 46u8]);
        return false;
    }
    let mut i: usize = 0;
    while i < b.len()
        invariant
            b@ == ns.spec_bytes(),
            0 <= i <= b@.len(),
            forall|k: int| 0 <= k < i ==> namespace_byte(#[trigger] b@[k]),
        decreases b@.len() - i,
    {
        let x = b[i];
        if !((48 <= x && x <= 57) || (97 <= x && x <= 122) || x == 95 || x == 46 || x == 45) {
            return false;
        }
        i = i + 1;
    }
    assert(b@ != seq![46u8, 46u8]) by {
        if b@ == seq![46u8, 46u8] {
            assert(b@.len() == 2);
        }
    }
    true
}

fn is_valid_path(p: &str) -> (r: bool)
    ensures
        r == valid_path(p.spec_bytes()),
{
    let b = p.as_bytes();
    let mut i: usize = 0;
    while i < b.len()
        invariant
            b@ == p.spec_bytes(),
            0 <= i <= b@.len(),
            forall|k: int| 0 <= k < i ==> path_byte(#[trigger] b@[k]),
        decreases b@.len() - i,
    {
        let x = b[i];
        if !((48 <= x && x <= 57) || (97 <= x && x <= 122) || x == 95 || x == 45 || x == 47 || x == 46) {
            return false;
        }
        i = i + 1;
    }
    true
}

/// The first `b` of `w` stands at `k` when the bytes before it are not `b`.
pub proof fn lemma_find_byte_at(w: Seq<u8>, b: u8, k: int)
    requires
        0 <= k < w.len(),
        w[k] == b,
        forall|i: int| 0 <= i < k ==> #[trigger] w[i] != b,
    ensures
        find_byte(w, b, 0) == k,
{
    lemma_find_byte(w, b, 0);
    let f = find_byte(w, b, 0);
    if f < k {
        assert(w[f] == b);
    } else if f > k {
        assert(w[k] != b);
    }
}

/// An identifier that parsing gives has a namespace that is never empty,
/// and parsing its text `namespace:path` gives the same identifier back.
pub proof fn lemma_parsed_identifier_round_trip(id: CommandIdentifierModel, v: Seq<u8>)
    requires
        id.parses_to(v),
    ensures
        id.namespace_view().len() > 0,
        id.parses_to(utf8(id.display())),
{
    let ns = utf8(id.namespace_view());
    let p = utf8(id.path_view());
    reveal_strlit("minecraft");
    reveal_strlit(":");
    lemma_find_byte(v, 58, 0);
    let c = find_byte(v, 58, 0);
    if c >= v.len() || c == 0 {
        assert(ns == utf8("minecraft"@));
        assert(utf8("minecraft"@) == vstd::utf8::encode_scalar('m' as u32) + utf8("minecraft"@.drop_first()));
    } else {
        assert(ns == v.subrange(0, c));
    }
    assert(ns.len() > 0);
    if id.namespace_view().len() == 0 {
        assert(id.namespace_view() =~= Seq::<char>::empty());
        assert(ns =~= Seq::<u8>::empty());
    }
    lemma_utf8_concat(id.namespace_view(), ":"@);
    lemma_utf8_concat(id.namespace_view() + ":"@, id.path_view());
    assert(utf8(":"@) == vstd::utf8::encode_scalar(':' as u32) + utf8(":"@.drop_first()));
    assert(":"@.drop_first() =~= Seq::<char>::empty());
    assert(":"@[0] == ':');
    assert((':' as u32) == 58u32);
    assert((58u32 & 0x7Fu32) as u8 == 58u8) by (bit_vector);
    assert(utf8(":"@) =~= seq![58u8]);
    let w = utf8(id.display());
    assert(w =~= ns + seq![58u8] + p);
    assert forall|i: int| 0 <= i < ns.len() implies #[trigger] w[i] != 58u8 by {
        assert(w[i] == ns[i]);
        assert(namespace_byte(ns[i]));
    }
    lemma_find_byte_at(w, 58u8, ns.len() as int);
    assert(w.subrange(0, ns.len() as int) =~= ns);
    assert(w.subrange(ns.len() as int + 1, w.len() as int) =~= p);
}

impl CommandIdentifierModel {
    pub closed spec fn namespace_view(&self) -> Seq<char> {
        self.namespace@
    }

    pub closed spec fn path_view(&self) -> Seq<char> {
        self.path@
    }

    /// `namespace:path`.
    pub open spec fn display(&self) -> Seq<char> {
        self.namespace_view() + ":"@ + self.path_view()
    }

    /// The identifier that `parse` gives for text with these bytes.
    pub open spec fn parses_to(&self, v: Seq<u8>) -> bool {
        parse_identifier(v) matches Some((ns, p)) && utf8(self.namespace_view()) == ns && utf8(self.path_view()) == p
    }

    /// Two identifiers name the same resource.
    pub open spec fn same(&self, other: &CommandIdentifierModel) -> bool {
        self.namespace_view() == other.namespace_view() && self.path_view() == other.path_view()
    }

    /// An identifier from parts already known to be valid.
    pub fn of(namespace: &str, path: &str) -> (r: Self)
        ensures
            r.namespace_view() == namespace@,
            r.path_view() == path@,
    {
        CommandIdentifierModel { namespace: namespace.to_owned(), path: path.to_owned() }
    }

    pub fn copy(&self) -> (r: Self)
        ensures
            r.same(self),
    {
        CommandIdentifierModel { namespace: self.namespace.clone(), path: self.path.clone() }
    }

    pub fn equals(&self, other: &CommandIdentifierModel) -> (r: bool)
        ensures
            r == self.same(other),
    {
        self.namespace == other.namespace && self.path == other.path
    }

    /// Parses `namespace:path`; a missing or leading colon means the default namespace.
    pub fn parse(value: &str) -> (r: Result<Self, IdentifierArgumentParseError>)
        ensures
            r matches Ok(id) ==> id.parses_to(value.spec_bytes()),
            r is Err <==> parse_identifier(value.spec_bytes()) is None,
    {
        let b = value.as_bytes();
        let ghost v = b@;
        let mut c: usize = 0;
        proof {
            lemma_find_byte(v, 58, 0);
        }
        while c < b.len() && b[c] != 58
            invariant
                b@ == v,
                v == value.spec_bytes(),
                0 <= c <= v.len(),
                find_byte(v, 58, c as int) == find_byte(v, 58, 0),
            decreases v.len() - c,
        {
            c = c + 1;
        }
        proof {
            lemma_find_byte(v, 58, c as int);
            lemma_cut_at_ascii(v, c as int);
        }
        if c == b.len() {
            Self::from_namespace_and_path("minecraft", value)
        } else {
            proof {
                lemma_cut_after_ascii(v, c + 1);
                assert(cut_point(v, v.len() as int));
            }
            let path = crate::text::substring(value, c + 1, b.len());
            if c == 0 {
                Self::from_namespace_and_path("minecraft", path)
            } else {
                let ns = crate::text::substring(value, 0, c);
                Self::from_namespace_and_path(ns, path)
            }
        }
    }

    fn from_namespace_and_path(namespace: &str, path: &str) -> (r: Result<Self, IdentifierArgumentParseError>)
        ensures
            r matches Ok(id) ==> utf8(id.namespace_view()) == namespace.spec_bytes() && utf8(id.path_view()) == path.spec_bytes(),
            r is Err <==> !(valid_namespace(namespace.spec_bytes()) && valid_path(path.spec_bytes())),
    {
        if !is_valid_namespace(namespace) || !is_valid_path(path) {
            return Err(IdentifierArgumentParseError::InvalidIdentifier);
        }
        Ok(CommandIdentifierModel { namespace: namespace.to_owned(), path: path.to_owned() })
    }

    /// Reads the longest run of identifier bytes and parses it; on failure
    /// the cursor goes back to where the run started.
    pub fn read(reader: &mut StringReaderModel) -> (r: Result<Self, IdentifierArgumentParseError>)
        requires
            old(reader).at_cut(),
        ensures
            final(reader).text() == old(reader).text(),
            final(reader).at_cut(),
            ({
                let end = identifier_end(old(reader).bytes(), old(reader).pos());
                let tok = old(reader).bytes().subrange(old(reader).pos(), end);
                match r {
                    Ok(id) => id.parses_to(tok) && final(reader).pos() == end,
                    Err(_) => parse_identifier(tok) is None && final(reader).pos() == old(reader).pos(),
                }
            }),
    {
        let start = reader.cursor();
        let ghost v = reader.bytes();
        proof {
            lemma_identifier_end(v, start as int);
        }
        while reader.can_read() && is_allowed_in_identifier(reader.peek_byte())
            invariant
                reader.text() == old(reader).text(),
                reader.bytes() == v,
                start <= reader.pos() <= v.len(),
                identifier_end(v, reader.pos()) == identifier_end(v, start as int),
            decreases v.len() - reader.pos(),
        {
            reader.skip();
        }
        let end = reader.cursor();
        proof {
            reader.lemma_bytes();
            if end > start {
                lemma_cut_after_ascii(v, end as int);
            }
        }
        let raw = reader.slice(start, end);
        match Self::parse(raw) {
            Ok(id) => Ok(id),
            Err(e) => {
                reader.set_cursor(start);
                Err(IdentifierArgumentParseError::InvalidIdentifier)
            },
        }
    }

    pub fn namespace(&self) -> (r: &str)
        ensures
            r@ == self.namespace_view(),
    {
        self.namespace.as_str()
    }

    pub fn path(&self) -> (r: &str)
        ensures
            r@ == self.path_view(),
    {
        self.path.as_str()
    }

    /// `namespace:path`.
    pub fn to_string(&self) -> (r: String)
        ensures
            r@ == self.display(),
    {
        let mut s = self.namespace.clone();
        push_str(&mut s, ":");
        push_str(&mut s, self.path.as_str());
        s
    }

    /// The path alone in the default namespace, else `namespace:path`.
    pub fn to_short_string(&self) -> (r: String)
        ensures
            r@ == (if self.namespace_view() == "minecraft"@ { self.path_view() } else { self.display() }),
    {
        if str_eq(self.namespace.as_str(), "minecraft") {
            self.path.clone()
        } else {
            self.to_string()
        }
    }
}

/// An identifier names the same resource as one parsed from `v` exactly
/// when it is itself what `v` parses to.
pub proof fn lemma_same_as_parsed(a: CommandIdentifierModel, b: CommandIdentifierModel, v: Seq<u8>)
    requires
        b.parses_to(v),
    ensures
        a.same(&b) <==> a.parses_to(v),
{
    if a.parses_to(v) {
        lemma_utf8_injective(a.namespace_view(), b.namespace_view());
        lemma_utf8_injective(a.path_view(), b.path_view());
    }
}

impl Clone for CommandIdentifierModel {
    fn clone(&self) -> (r: Self)
        ensures
            r.same(self),
    {
        self.copy()
    }
}

impl IdentifierArgumentModel {
    pub fn id() -> (r: Self) {
        IdentifierArgumentModel
    }

    pub fn parse(&self, reader: &mut StringReaderModel) -> (r: Result<CommandIdentifierModel, IdentifierArgumentParseError>)
        requires
            old(reader).at_cut(),
        ensures
            final(reader).text() == old(reader).text(),
            final(reader).at_cut(),
            ({
                let end = identifier_end(old(reader).bytes(), old(reader).pos());
                let tok = old(reader).bytes().subrange(old(reader).pos(), end);
                match r {
                    Ok(id) => id.parses_to(tok) && final(reader).pos() == end,
                    Err(_) => parse_identifier(tok) is None && final(reader).pos() == old(reader).pos(),
                }
            }),
    {
        CommandIdentifierModel::read(reader)
    }

    pub fn examples(&self) -> (r: [&'static str; 3])
        ensures
            r@[0]@ == "foo"@,
            r@[1]@ == "foo:bar"@,
            r@[2]@ == "012"@,
    {
        ["foo", "foo:bar", "012"]
    }
}

impl CommandContextModel {
    pub closed spec fn view(&self) -> Map<Seq<char>, CommandIdentifierModel> {
        self.arguments.view()
    }

    pub fn with_identifier(self, name: &str, value: CommandIdentifierModel) -> (r: Self)
        ensures
            r.view() == self.view().insert(name@, value),
    {
        let mut arguments = self.arguments;
        arguments.insert(name.to_owned(), value);
        CommandContextModel { arguments }
    }
}

impl Default for CommandContextModel {
    fn default() -> (r: Self)
        ensures
            r.view() == Map::<Seq<char>, CommandIdentifierModel>::empty(),
    {
        CommandContextModel { arguments: ArgMap::new() }
    }
}

/// The identifier bound to `name`, if any.
pub fn get_id(context: &CommandContextModel, name: &str) -> (r: Option<CommandIdentifierModel>)
    ensures
        r matches Some(v) ==> context.view().contains_key(name@) && v.same(&context.view()[name@]),
        r is None ==> !context.view().contains_key(name@),
{
    match context.arguments.get(name) {
        Some(v) => Some(v.copy()),
        None => None,
    }
}

} // verus!
