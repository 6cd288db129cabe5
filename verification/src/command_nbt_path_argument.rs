//! The `nbt_path` argument: a path of nodes into a named-binary-tag tree
//! (`foo.bar[0]`, `items[{id=stone}]`, `{foo=bar}`), and the reads and
//! writes that commands make through such a path.

use vstd::prelude::*;
use vstd::string::StringSliceAdditionalSpecFns;
use crate::text::{utf8, str_eq, substring, cut_point};
use crate::arg_map::ArgMap;
use crate::search::{first_index, first_index_from, lemma_first_index_from, scan_end};
use crate::nbt::{Tag, TagView, fields_view, list_view, lemma_fields_view, lemma_list_view, lemma_list_view_ext,
    lemma_fields_view_ext, lemma_fields_view_is, lemma_list_view_is};
pub use crate::string_reader::StringReaderModel;
use crate::string_reader::advanced;
use vstd::utf8::decode_utf8;

verus! {

#[derive(Debug, Clone, PartialEq, Eq)]
pub struct NbtPathArgumentModel;

#[derive(Debug, PartialEq, Eq)]
pub enum PathNodeModel {
    CompoundChild(String),
    IndexedElement(isize),
    AllElements,
    MatchElement(Tag),
    MatchObject { name: String, pattern: Tag },
    MatchRootObject(Tag),
}

#[derive(Debug, PartialEq, Eq)]
pub struct NbtPathModel {
    original: String,
    nodes: Vec<PathNodeModel>,
    node_end_positions: Vec<usize>,
}

pub struct CommandContextModel {
    paths: ArgMap<NbtPathModel>,
}

#[derive(Debug, Clone, PartialEq, Eq)]
pub enum NbtPathError {
    InvalidNode,
    NothingFound(String),
    DataTooDeep,
    ExpectedList,
    InvalidIndex(isize),
}

/// The value of a path node.
pub enum NodeView {
    CompoundChild(Seq<char>),
    IndexedElement(isize),
    AllElements,
    MatchElement(TagView),
    MatchObject(Seq<char>, TagView),
    MatchRootObject(TagView),
}

impl PathNodeModel {
    pub open spec fn deep(&self) -> NodeView {
        match self {
            PathNodeModel::CompoundChild(name) => NodeView::CompoundChild(name@),
            PathNodeModel::IndexedElement(i) => NodeView::IndexedElement(*i),
            PathNodeModel::AllElements => NodeView::AllElements,
            PathNodeModel::MatchElement(p) => NodeView::MatchElement(p.deep()),
            PathNodeModel::MatchObject { name, pattern } => NodeView::MatchObject(name@, pattern.deep()),
            PathNodeModel::MatchRootObject(p) => NodeView::MatchRootObject(p.deep()),
        }
    }
}

pub open spec fn nodes_view(nodes: Seq<PathNodeModel>) -> Seq<NodeView> {
    nodes.map_values(|n: PathNodeModel| n.deep())
}

/// Fields named `name`.
pub open spec fn named(name: Seq<char>) -> spec_fn((Seq<char>, TagView)) -> bool {
    |f: (Seq<char>, TagView)| f.0 == name
}

/// The first field named `name` of a compound.
pub open spec fn child(t: TagView, name: Seq<char>) -> Option<TagView> {
    match t {
        TagView::Compound(fields) => {
            let i = first_index(fields, named(name));
            if i >= 0 { Some(fields[i].1) } else { None }
        },
        _ => None,
    }
}

/// `t` matches `pattern`: a compound pattern asks that each of its fields
/// be present (first of its name) and match; any other pattern asks for equality.
pub open spec fn matches_pattern(pattern: TagView, t: TagView) -> bool
    decreases pattern,
{
    match pattern {
        TagView::Compound(pf) => match t {
            TagView::Compound(tf) => fields_match(pf, tf),
            _ => false,
        },
        _ => pattern == t,
    }
}

pub open spec fn fields_match(pf: Seq<(Seq<char>, TagView)>, tf: Seq<(Seq<char>, TagView)>) -> bool
    decreases pf,
{
    if pf.len() == 0 {
        true
    } else {
        fields_match(pf.drop_last(), tf) && match child(TagView::Compound(tf), pf.last().0) {
            Some(x) => matches_pattern(pf.last().1, x),
            None => false,
        }
    }
}

pub open spec fn matching(pattern: TagView) -> spec_fn(TagView) -> bool {
    |t: TagView| matches_pattern(pattern, t)
}

/// The list position that a possibly negative index names, when in range.
pub open spec fn list_position(len: int, index: int) -> Option<int> {
    let actual = if index < 0 { len + index } else { index };
    if 0 <= actual < len { Some(actual) } else { None }
}

/// The tags that a node selects under a parent.
pub open spec fn node_get(node: NodeView, parent: TagView) -> Seq<TagView> {
    match node {
        NodeView::CompoundChild(name) => match child(parent, name) {
            Some(x) => seq![x],
            None => seq![],
        },
        NodeView::IndexedElement(index) => match parent {
            TagView::List(vs) => match list_position(vs.len() as int, index as int) {
                Some(p) => seq![vs[p]],
                None => seq![],
            },
            _ => seq![],
        },
        NodeView::AllElements => match parent {
            TagView::List(vs) => vs,
            _ => seq![],
        },
        NodeView::MatchElement(pattern) => match parent {
            TagView::List(vs) => vs.filter(matching(pattern)),
            _ => seq![],
        },
        NodeView::MatchObject(name, pattern) => match child(parent, name) {
            Some(x) => if matches_pattern(pattern, x) { seq![x] } else { seq![] },
            None => seq![],
        },
        NodeView::MatchRootObject(pattern) => if parent is Compound && matches_pattern(pattern, parent) {
            seq![parent]
        } else {
            seq![]
        },
    }
}

/// The tags that a node selects under each of the tags, in order.
pub open spec fn step(node: NodeView, tags: Seq<TagView>) -> Seq<TagView>
    decreases tags.len(),
{
    if tags.len() == 0 {
        seq![]
    } else {
        step(node, tags.drop_last()) + node_get(node, tags.last())
    }
}

/// The tags that the first `k` nodes select from `tag`.
pub open spec fn results(nodes: Seq<NodeView>, tag: TagView, k: nat) -> Seq<TagView>
    decreases k,
{
    if k == 0 {
        seq![tag]
    } else {
        step(nodes[k - 1], results(nodes, tag, (k - 1) as nat))
    }
}

/// An index node names one element of a list of length `n`: an index `i`
/// with `0 <= i < n` names position `i`, one with `-n <= i < 0` counts from
/// the end and names position `n + i`. Getting selects exactly that
/// element (also below a named child, as in `items[-1]`), setting replaces
/// exactly it, and removing takes out exactly it; an index outside the list
/// selects nothing and changes nothing.
pub proof fn lemma_index_names_one_element(vs: Seq<TagView>, i: isize, value: TagView, t: TagView, name: Seq<char>)
    ensures
        ({
            let n = vs.len() as int;
            let node = NodeView::IndexedElement(i);
            if -n <= i < n {
                let q = if i < 0 { n + i } else { i as int };
                &&& 0 <= q < n
                &&& node_get(node, TagView::List(vs)) == seq![vs[q]]
                &&& results(seq![node], TagView::List(vs), 1) == seq![vs[q]]
                &&& (child(t, name) == Some(TagView::List(vs))
                    ==> results(seq![NodeView::CompoundChild(name), node], t, 2) == seq![vs[q]])
                &&& set_last_spec(TagView::List(vs), node, value).0 == TagView::List(vs.update(q, value))
                &&& remove_last_spec(TagView::List(vs), node) == (TagView::List(vs.remove(q)), 1nat)
            } else {
                &&& node_get(node, TagView::List(vs)) == Seq::<TagView>::empty()
                &&& set_last_spec(TagView::List(vs), node, value) == (TagView::List(vs), 0nat)
                &&& remove_last_spec(TagView::List(vs), node) == (TagView::List(vs), 0nat)
            }
        }),
{
    let n = vs.len() as int;
    let node = NodeView::IndexedElement(i);
    if -n <= i < n {
        let q = if i < 0 { n + i } else { i as int };
        assert(list_position(n, i as int) == Some(q));
        if vs[q] == value {
            assert(vs.update(q, value) =~= vs);
        }
        let one = seq![node];
        assert(results(one, TagView::List(vs), 0) == seq![TagView::List(vs)]);
        assert(seq![TagView::List(vs)].drop_last() =~= Seq::<TagView>::empty());
        assert(step(node, Seq::<TagView>::empty()) == Seq::<TagView>::empty());
        assert(step(node, seq![TagView::List(vs)]) =~= node_get(node, TagView::List(vs)));
        let two = seq![NodeView::CompoundChild(name), node];
        if child(t, name) == Some(TagView::List(vs)) {
            let first = NodeView::CompoundChild(name);
            assert(results(two, t, 0) == seq![t]);
            assert(seq![t].drop_last() =~= Seq::<TagView>::empty());
            assert(step(first, Seq::<TagView>::empty()) == Seq::<TagView>::empty());
            assert(step(first, seq![t]) =~= node_get(first, t));
            assert(results(two, t, 1) =~= seq![TagView::List(vs)]);
            assert(two[1] == node);
        }
    } else {
        assert(list_position(n, i as int) is None);
    }
}

/// A tag nested 512 levels below the given depth, or deeper.
pub open spec fn too_deep(t: TagView, depth: int) -> bool
    decreases t,
{
    if depth >= 512 {
        true
    } else {
        match t {
            TagView::Compound(fields) => any_field_too_deep(fields, depth + 1),
            TagView::List(values) => any_too_deep(values, depth + 1),
            _ => false,
        }
    }
}

pub open spec fn any_field_too_deep(fields: Seq<(Seq<char>, TagView)>, depth: int) -> bool
    decreases fields,
{
    if fields.len() == 0 {
        false
    } else {
        any_field_too_deep(fields.drop_last(), depth) || too_deep(fields.last().1, depth)
    }
}

pub open spec fn any_too_deep(values: Seq<TagView>, depth: int) -> bool
    decreases values,
{
    if values.len() == 0 {
        false
    } else {
        any_too_deep(values.drop_last(), depth) || too_deep(values.last(), depth)
    }
}

proof fn lemma_list_view_concat(a: Seq<Tag>, b: Seq<Tag>)
    ensures
        list_view(a + b) == list_view(a) + list_view(b),
{
    lemma_list_view(a);
    lemma_list_view(b);
    lemma_list_view(a + b);
    assert(list_view(a + b) =~= list_view(a) + list_view(b));
}

proof fn lemma_fields_match_prefix(pf: Seq<(Seq<char>, TagView)>, tf: Seq<(Seq<char>, TagView)>, k: int)
    requires
        0 <= k <= pf.len(),
        fields_match(pf, tf),
    ensures
        fields_match(pf.subrange(0, k), tf),
    decreases pf.len(),
{
    if k < pf.len() {
        lemma_fields_match_prefix(pf.drop_last(), tf, k);
        assert(pf.drop_last().subrange(0, k) =~= pf.subrange(0, k));
    } else {
        assert(pf.subrange(0, k) =~= pf);
    }
}

proof fn lemma_any_field_prefix(fields: Seq<(Seq<char>, TagView)>, depth: int, k: int)
    requires
        0 <= k <= fields.len(),
        any_field_too_deep(fields.subrange(0, k), depth),
    ensures
        any_field_too_deep(fields, depth),
    decreases fields.len(),
{
    if k < fields.len() {
        assert(fields.drop_last().subrange(0, k) =~= fields.subrange(0, k));
        lemma_any_field_prefix(fields.drop_last(), depth, k);
    } else {
        assert(fields.subrange(0, k) =~= fields);
    }
}

proof fn lemma_any_prefix(values: Seq<TagView>, depth: int, k: int)
    requires
        0 <= k <= values.len(),
        any_too_deep(values.subrange(0, k), depth),
    ensures
        any_too_deep(values, depth),
    decreases values.len(),
{
    if k < values.len() {
        assert(values.drop_last().subrange(0, k) =~= values.subrange(0, k));
        lemma_any_prefix(values.drop_last(), depth, k);
    } else {
        assert(values.subrange(0, k) =~= values);
    }
}

proof fn lemma_step_empty(node: NodeView, tags: Seq<TagView>)
    requires
        tags.len() == 0,
    ensures
        step(node, tags) == Seq::<TagView>::empty(),
{
}

proof fn lemma_results_stay_empty(nodes: Seq<NodeView>, tag: TagView, k: nat, m: nat)
    requires
        k <= m,
        results(nodes, tag, k).len() == 0,
    ensures
        results(nodes, tag, m).len() == 0,
    decreases m - k,
{
    if k < m {
        lemma_results_stay_empty(nodes, tag, k, (m - 1) as nat);
    }
}

/// The index of the first field named `name`, or `None`.
fn field_position(fields: &Vec<(String, Tag)>, name: &str) -> (r: Option<usize>)
    ensures
        ({
            let i = first_index(fields_view(fields@), named(name@));
            match r {
                Some(p) => i == p && p < fields@.len(),
                None => i < 0,
            }
        }),
{
    proof {
        lemma_fields_view(fields@);
    }
    let ghost fv = fields_view(fields@);
    let ghost p = named(name@);
    let mut i: usize = 0;
    while i < fields.len()
        invariant
            0 <= i <= fields@.len(),
            fv == fields_view(fields@),
            fv.len() == fields@.len(),
            first_index_from(fv, p, i as int) == first_index(fv, p),
        decreases fields@.len() - i,
    {
        if str_eq(fields[i].0.as_str(), name) {
            return Some(i);
        }
        i = i + 1;
    }
    None
}

/// The first field of the compound named `name`.
fn compound_get<'a>(tag: &'a Tag, name: &str) -> (r: Option<&'a Tag>)
    ensures
        match child(tag.deep(), name@) {
            Some(x) => r matches Some(t) && t.deep() == x,
            None => r is None,
        },
{
    match tag {
        Tag::Compound(fields) => {
            proof {
                lemma_fields_view(fields@);
            }
            match field_position(fields, name) {
                Some(i) => Some(&fields[i].1),
                None => None,
            }
        },
        _ => None,
    }
}

/// Whether `tag` matches `pattern`.
fn compare_nbt(pattern: &Tag, tag: &Tag) -> (r: bool)
    ensures
        r == matches_pattern(pattern.deep(), tag.deep()),
    decreases pattern,
{
    match (pattern, tag) {
        (Tag::Compound(pf), Tag::Compound(tf)) => {
            proof {
                lemma_fields_view(pf@);
            }
            let ghost pv = fields_view(pf@);
            let ghost tv = fields_view(tf@);
            let mut i: usize = 0;
            while i < pf.len()
                invariant
                    0 <= i <= pf@.len(),
                    pv == fields_view(pf@),
                    pv.len() == pf@.len(),
                    tv == fields_view(tf@),
                    fields_match(pv.subrange(0, i as int), tv),
                decreases pf@.len() - i,
            {
                let field = &pf[i];
                assert(pv.subrange(0, i + 1).drop_last() =~= pv.subrange(0, i as int));
                assert(pv.subrange(0, i + 1).last() == pv[i as int]);
                let ok = match compound_get(tag, field.0.as_str()) {
                    Some(value) => {
                        assert(decreases_to!(pattern => field.1));
                        compare_nbt(&field.1, value)
                    },
                    None => false,
                };
                if !ok {
                    proof {
                        assert(pv[i as int] == (field.0@, field.1.deep()));
                        if fields_match(pv, tv) {
                            lemma_fields_match_prefix(pv, tv, i + 1);
                        }
                    }
                    return false;
                }
                i = i + 1;
            }
            assert(pv.subrange(0, pf@.len() as int) =~= pv);
            true
        },
        (Tag::Compound(_), _) => false,
        _ => pattern.equals(tag),
    }
}

/// The copies of the list elements that match `pattern`, in order.
fn matching_elements(values: &Vec<Tag>, pattern: &Tag) -> (r: Vec<Tag>)
    ensures
        list_view(r@) == list_view(values@).filter(matching(pattern.deep())),
{
    proof {
        lemma_list_view(values@);
    }
    let ghost lv = list_view(values@);
    let mut out: Vec<Tag> = Vec::new();
    let mut i: usize = 0;
    while i < values.len()
        invariant
            0 <= i <= values@.len(),
            lv == list_view(values@),
            lv.len() == values@.len(),
            list_view(out@) == lv.subrange(0, i as int).filter(matching(pattern.deep())),
        decreases values@.len() - i,
    {
        proof {
            reveal_with_fuel(Seq::<TagView>::filter, 1);
            assert(lv.subrange(0, i + 1).drop_last() =~= lv.subrange(0, i as int));
            assert(lv.subrange(0, i + 1).last() == values@[i as int].deep());
        }
        if compare_nbt(pattern, &values[i]) {
            let ghost before = out@;
            out.push(values[i].copy());
            proof {
                assert(out@.drop_last() =~= before);
            }
        }
        i = i + 1;
    }
    assert(lv.subrange(0, values@.len() as int) =~= lv);
    out
}

fn copy_list(values: &Vec<Tag>) -> (r: Vec<Tag>)
    ensures
        list_view(r@) == list_view(values@),
{
    let mut out: Vec<Tag> = Vec::new();
    let mut i: usize = 0;
    while i < values.len()
        invariant
            0 <= i <= values@.len(),
            out@.len() == i,
            forall|k: int| 0 <= k < i ==> (#[trigger] out@[k]).deep() == values@[k].deep(),
        decreases values@.len() - i,
    {
        out.push(values[i].copy());
        i = i + 1;
    }
    proof {
        lemma_list_view_ext(out@, values@);
    }
    out
}

/// The position that `index` names in a list of `len` elements.
fn list_index(len: usize, index: isize) -> (r: Option<usize>)
    ensures
        match list_position(len as int, index as int) {
            Some(p) => r == Some(p as usize),
            None => r is None,
        },
{
    if index < 0 {
        let back: usize = if index == isize::MIN { (isize::MAX as usize) + 1 } else { (-index) as usize };
        if back <= len { if back == 0 { None } else { Some(len - back) } } else { None }
    } else {
        let i = index as usize;
        if i < len { Some(i) } else { None }
    }
}

impl PathNodeModel {
    /// The copies of the tags that this node selects under `parent`.
    fn get(&self, parent: &Tag) -> (r: Vec<Tag>)
        ensures
            list_view(r@) == node_get(self.deep(), parent.deep()),
    {
        let mut out: Vec<Tag> = Vec::new();
        match self {
            PathNodeModel::CompoundChild(name) => {
                if let Some(x) = compound_get(parent, name.as_str()) {
                    out.push(x.copy());
                }
            },
            PathNodeModel::IndexedElement(index) => {
                if let Tag::List(values) = parent {
                    proof {
                        lemma_list_view(values@);
                    }
                    if let Some(p) = list_index(values.len(), *index) {
                        out.push(values[p].copy());
                    }
                }
            },
            PathNodeModel::AllElements => {
                if let Tag::List(values) = parent {
                    out = copy_list(values);
                }
            },
            PathNodeModel::MatchElement(pattern) => {
                if let Tag::List(values) = parent {
                    out = matching_elements(values, pattern);
                }
            },
            PathNodeModel::MatchObject { name, pattern } => {
                if let Some(x) = compound_get(parent, name.as_str()) {
                    if compare_nbt(pattern, x) {
                        out.push(x.copy());
                    }
                }
            },
            PathNodeModel::MatchRootObject(pattern) => {
                if let Tag::Compound(_) = parent {
                    if compare_nbt(pattern, parent) {
                        out.push(parent.copy());
                    }
                }
            },
        }
        proof {
            lemma_list_view(out@);
            assert(list_view(out@) =~= node_get(self.deep(), parent.deep()));
        }
        out
    }
}

/// The copies of the tags that `node` selects under each of `tags`.
fn step_exec(node: &PathNodeModel, tags: &Vec<Tag>) -> (r: Vec<Tag>)
    ensures
        list_view(r@) == step(node.deep(), list_view(tags@)),
{
    proof {
        lemma_list_view(tags@);
    }
    let ghost lv = list_view(tags@);
    let mut out: Vec<Tag> = Vec::new();
    let mut i: usize = 0;
    while i < tags.len()
        invariant
            0 <= i <= tags@.len(),
            lv == list_view(tags@),
            lv.len() == tags@.len(),
            list_view(out@) == step(node.deep(), lv.subrange(0, i as int)),
        decreases tags@.len() - i,
    {
        let more = node.get(&tags[i]);
        proof {
            assert(lv.subrange(0, i + 1).drop_last() =~= lv.subrange(0, i as int));
            assert(lv.subrange(0, i + 1).last() == tags@[i as int].deep());
            lemma_list_view_concat(out@, more@);
        }
        let mut more = more;
        out.append(&mut more);
        i = i + 1;
    }
    assert(lv.subrange(0, tags@.len() as int) =~= lv);
    out
}

/// Whether the tag nests 512 levels below `depth`, or deeper.
pub fn is_too_deep(tag: &Tag, depth: usize) -> (r: bool)
    ensures
        r == too_deep(tag.deep(), depth as int),
    decreases tag,
{
    if depth >= 512 {
        return true;
    }
    match tag {
        Tag::Compound(fields) => {
            proof {
                lemma_fields_view(fields@);
            }
            let ghost fv = fields_view(fields@);
            let mut i: usize = 0;
            while i < fields.len()
                invariant
                    0 <= i <= fields@.len(),
                    depth < 512,
                    fv == fields_view(fields@),
                    fv.len() == fields@.len(),
                    !any_field_too_deep(fv.subrange(0, i as int), depth + 1),
                decreases fields@.len() - i,
            {
                let field = &fields[i];
                assert(fv.subrange(0, i + 1).drop_last() =~= fv.subrange(0, i as int));
                assert(decreases_to!(tag => field.1));
                if is_too_deep(&field.1, depth + 1) {
                    proof {
                        assert(fv.subrange(0, i + 1).last() == fv[i as int]);
                        lemma_any_field_prefix(fv, depth + 1, i + 1);
                    }
                    return true;
                }
                i = i + 1;
            }
            assert(fv.subrange(0, fields@.len() as int) =~= fv);
            false
        },
        Tag::List(values) => {
            proof {
                lemma_list_view(values@);
            }
            let ghost lv = list_view(values@);
            let mut i: usize = 0;
            while i < values.len()
                invariant
                    0 <= i <= values@.len(),
                    depth < 512,
                    lv == list_view(values@),
                    lv.len() == values@.len(),
                    !any_too_deep(lv.subrange(0, i as int), depth + 1),
                decreases values@.len() - i,
            {
                let value = &values[i];
                assert(lv.subrange(0, i + 1).drop_last() =~= lv.subrange(0, i as int));
                assert(decreases_to!(tag => *value));
                if is_too_deep(value, depth + 1) {
                    proof {
                        assert(lv.subrange(0, i + 1).last() == lv[i as int]);
                        lemma_any_prefix(lv, depth + 1, i + 1);
                    }
                    return true;
                }
                i = i + 1;
            }
            assert(lv.subrange(0, values@.len() as int) =~= lv);
            false
        },
        _ => false,
    }
}

impl NbtPathModel {
    pub closed spec fn original_view(&self) -> Seq<char> {
        self.original@
    }

    pub closed spec fn nodes_deep(&self) -> Seq<NodeView> {
        nodes_view(self.nodes@)
    }

    pub closed spec fn positions(&self) -> Seq<usize> {
        self.node_end_positions@
    }

    /// Each node has an end position, a cut point of the text.
    pub closed spec fn wf(&self) -> bool {
        &&& self.node_end_positions@.len() == self.nodes@.len()
        &&& forall|i: int| 0 <= i < self.node_end_positions@.len()
            ==> cut_point(utf8(self.original@), #[trigger] self.node_end_positions@[i] as int)
    }

    /// The text of the path up to the end of node `i`.
    pub open spec fn prefix(&self, i: int) -> Seq<u8> {
        utf8(self.original_view()).subrange(0, self.positions()[i] as int)
    }

    pub fn as_string(&self) -> (r: &str)
        ensures
            r@ == self.original_view(),
    {
        self.original.as_str()
    }

    pub fn nodes(&self) -> (r: &[PathNodeModel])
        ensures
            nodes_view(r@) == self.nodes_deep(),
    {
        self.nodes.as_slice()
    }

    fn not_found(&self, node_index: usize) -> (r: NbtPathError)
        requires
            self.wf(),
            node_index < self.nodes@.len(),
        ensures
            r matches NbtPathError::NothingFound(s) && utf8(s@) == self.prefix(node_index as int),
    {
        let end = self.node_end_positions[node_index];
        proof {
            assert(cut_point(utf8(self.original@), end as int));
            assert(cut_point(utf8(self.original@), 0));
        }
        NbtPathError::NothingFound(substring(self.original.as_str(), 0, end).to_owned())
    }

    /// The tags that the path selects from `tag`; when a node selects
    /// nothing, the error names the path up to that node.
    pub fn get(&self, tag: &Tag) -> (r: Result<Vec<Tag>, NbtPathError>)
        requires
            self.wf(),
        ensures
            ({
                let n = self.nodes_deep().len();
                let all = results(self.nodes_deep(), tag.deep(), n);
                if all.len() > 0 {
                    r matches Ok(v) && list_view(v@) == all
                } else {
                    r matches Err(NbtPathError::NothingFound(s)) && exists|i: int| 0 <= i < n
                        && #[trigger] results(self.nodes_deep(), tag.deep(), (i + 1) as nat).len() == 0
                        && (forall|j: int| 0 <= j < i ==> #[trigger] results(self.nodes_deep(), tag.deep(), (j + 1) as nat).len() > 0)
                        && utf8(s@) == self.prefix(i)
                }
            }),
    {
        let ghost nv = self.nodes_deep();
        let mut result: Vec<Tag> = Vec::new();
        result.push(tag.copy());
        proof {
            lemma_list_view(result@);
            assert(list_view(result@) =~= seq![tag.deep()]);
        }
        let mut i: usize = 0;
        while i < self.nodes.len()
            invariant
                0 <= i <= self.nodes@.len(),
                self.wf(),
                nv == self.nodes_deep(),
                nv.len() == self.nodes@.len(),
                list_view(result@) == results(nv, tag.deep(), i as nat),
                forall|j: int| 0 <= j < i ==> #[trigger] results(nv, tag.deep(), (j + 1) as nat).len() > 0,
            decreases self.nodes@.len() - i,
        {
            result = step_exec(&self.nodes[i], &result);
            proof {
                assert(nv[i as int] == self.nodes@[i as int].deep());
                lemma_list_view(result@);
            }
            if result.len() == 0 {
                proof {
                    lemma_results_stay_empty(nv, tag.deep(), (i + 1) as nat, nv.len());
                    assert(results(nv, tag.deep(), ((i as int) + 1) as nat).len() == 0);
                }
                let e = self.not_found(i);
                return Err(e);
            }
            i = i + 1;
        }
        proof {
            if nv.len() > 0 {
                assert(results(nv, tag.deep(), ((nv.len() - 1) + 1) as nat).len() > 0);
            }
        }
        Ok(result)
    }

    /// How many tags the path selects from `tag`.
    pub fn count_matching(&self, tag: &Tag) -> (r: usize)
        ensures
            r == results(self.nodes_deep(), tag.deep(), self.nodes_deep().len()).len(),
    {
        let ghost nv = self.nodes_deep();
        let mut result: Vec<Tag> = Vec::new();
        result.push(tag.copy());
        proof {
            lemma_list_view(result@);
            assert(list_view(result@) =~= seq![tag.deep()]);
        }
        let mut i: usize = 0;
        while i < self.nodes.len()
            invariant
                0 <= i <= self.nodes@.len(),
                nv == self.nodes_deep(),
                nv.len() == self.nodes@.len(),
                list_view(result@) == results(nv, tag.deep(), i as nat),
            decreases self.nodes@.len() - i,
        {
            result = step_exec(&self.nodes[i], &result);
            proof {
                assert(nv[i as int] == self.nodes@[i as int].deep());
                lemma_list_view(result@);
            }
            if result.len() == 0 {
                proof {
                    lemma_results_stay_empty(nv, tag.deep(), (i + 1) as nat, nv.len());
                }
                return 0;
            }
            i = i + 1;
        }
        proof {
            lemma_list_view(result@);
        }
        result.len()
    }

    /// Whether the tag nests 512 levels below `depth`, or deeper.
    pub fn is_too_deep(tag: &Tag, depth: usize) -> (r: bool)
        ensures
            r == too_deep(tag.deep(), depth as int),
    {
        is_too_deep(tag, depth)
    }
}

impl NbtPathArgumentModel {
    pub fn nbt_path() -> (r: Self) {
        NbtPathArgumentModel
    }

    pub fn examples(&self) -> (r: [&'static str; 6])
        ensures
            r@[0]@ == "foo"@,
            r@[1]@ == "foo.bar"@,
            r@[2]@ == "foo[0]"@,
            r@[3]@ == "[0]"@,
            r@[4]@ == "[]"@,
            r@[5]@ == "{foo=bar}"@,
    {
        ["foo", "foo.bar", "foo[0]", "[0]", "[]", "{foo=bar}"]
    }
}

impl CommandContextModel {
    pub closed spec fn view(&self) -> Map<Seq<char>, NbtPathModel> {
        self.paths.view()
    }

    pub fn with_path(self, name: &str, path: NbtPathModel) -> (r: Self)
        ensures
            r.view() == self.view().insert(name@, path),
    {
        let mut paths = self.paths;
        paths.insert(name.to_owned(), path);
        CommandContextModel { paths }
    }
}

impl Default for CommandContextModel {
    fn default() -> (r: Self)
        ensures
            r.view() == Map::<Seq<char>, NbtPathModel>::empty(),
    {
        CommandContextModel { paths: ArgMap::new() }
    }
}


/// Bytes that end an unquoted node name.
pub open spec fn name_stop(b: u8) -> bool {
    b == 32 || b == 34 || b == 39 || b == 91 || b == 93 || b == 46 || b == 123 || b == 125
}

/// Bytes that end a pattern token.
pub open spec fn token_stop(b: u8) -> bool {
    b == 58 || b == 61 || b == 44 || b == 125 || b == 93
}

pub open spec fn not_digit(b: u8) -> bool {
    !(48 <= b <= 57)
}


pub open spec fn name_stops() -> spec_fn(u8) -> bool {
    |b: u8| name_stop(b)
}

pub open spec fn token_stops() -> spec_fn(u8) -> bool {
    |b: u8| token_stop(b)
}

pub open spec fn digit_stops() -> spec_fn(u8) -> bool {
    |b: u8| not_digit(b)
}

pub open spec fn byte_is(q: u8) -> spec_fn(u8) -> bool {
    |b: u8| b == q
}


fn is_stop(b: u8, kind: u8) -> (r: bool)
    ensures
        r == (if kind == 0 { name_stop(b) } else if kind == 1 { token_stop(b) } else { not_digit(b) }),
{
    if kind == 0 {
        b == 32 || b == 34 || b == 39 || b == 91 || b == 93 || b == 46 || b == 123 || b == 125
    } else if kind == 1 {
        b == 58 || b == 61 || b == 44 || b == 125 || b == 93
    } else {
        !(48 <= b && b <= 57)
    }
}

/// Moves the reader to `scan_end` for the stop bytes `kind` selects
/// (0: name, 1: token, 2: digit).
fn scan(reader: &mut StringReaderModel, kind: u8)
    requires
        old(reader).at_cut(),
        kind <= 2,
    ensures
        advanced(*old(reader), *final(reader)),
        final(reader).pos() == scan_end(old(reader).bytes(), old(reader).pos(),
            if kind == 0 { name_stops() } else if kind == 1 { token_stops() } else { digit_stops() }),
{
    proof {
        reader.lemma_bytes();
    }
    let ghost v = reader.bytes();
    let ghost start = reader.pos();
    let ghost p = if kind == 0 { name_stops() } else if kind == 1 { token_stops() } else { digit_stops() };
    proof {
        lemma_first_index_from(v, p, start);
    }
    while reader.can_read() && !is_stop(reader.peek_byte(), kind)
        invariant
            reader.text() == old(reader).text(),
            reader.bytes() == v,
            0 <= start <= reader.pos() <= v.len(),
            first_index_from(v, p, reader.pos()) == first_index_from(v, p, start),
            reader.pos() > start ==> !p(v[reader.pos() - 1]),
        decreases v.len() - reader.pos(),
    {
        reader.skip();
    }
    proof {
        reader.lemma_bytes();
        lemma_first_index_from(v, p, reader.pos());
        if reader.pos() < v.len() && kind < 2 {
            crate::string_reader::lemma_cut_at_ascii(v, reader.pos());
        } else if reader.pos() > start && reader.pos() < v.len() {
            crate::string_reader::lemma_cut_after_ascii(v, reader.pos());
        }
    }
}


/// Consumes the ASCII byte `c`, or fails without moving.
fn expect(reader: &mut StringReaderModel, c: u8) -> (r: Result<(), NbtPathError>)
    requires
        old(reader).at_cut(),
        c < 128,
    ensures
        advanced(*old(reader), *final(reader)),
        ({
            let v = old(reader).bytes();
            let p = old(reader).pos();
            if p < v.len() && v[p] == c {
                r is Ok && final(reader).pos() == p + 1
            } else {
                r == Err::<(), NbtPathError>(NbtPathError::InvalidNode) && final(reader).pos() == p
            }
        }),
{
    proof {
        reader.lemma_bytes();
    }
    if reader.can_read() && reader.peek_byte() == c {
        reader.skip();
        proof {
            reader.lemma_bytes();
            crate::string_reader::lemma_cut_after_ascii(reader.bytes(), reader.pos());
        }
        Ok(())
    } else {
        Err(NbtPathError::InvalidNode)
    }
}

/// A quoted string: the text up to the next quote of the same kind, which is consumed.
fn read_string(reader: &mut StringReaderModel) -> (r: Result<String, NbtPathError>)
    requires
        old(reader).at_cut(),
        old(reader).pos() < old(reader).bytes().len(),
    ensures
        advanced(*old(reader), *final(reader)),
        r is Ok ==> final(reader).pos() > old(reader).pos(),
        ({
            let v = old(reader).bytes();
            let p = old(reader).pos();
            let q = v[p];
            if q == 34u8 || q == 39u8 {
                let e = scan_end(v, p + 1, byte_is(q));
                if e < v.len() {
                    r matches Ok(s) && utf8(s@) == v.subrange(p + 1, e) && final(reader).pos() == e + 1
                } else {
                    r == Err::<String, NbtPathError>(NbtPathError::InvalidNode)
                }
            } else {
                r == Err::<String, NbtPathError>(NbtPathError::InvalidNode) && final(reader).pos() == p
            }
        }),
{
    proof {
        reader.lemma_bytes();
    }
    let ghost v = reader.bytes();
    let quote = reader.peek_byte();
    if quote != 34 && quote != 39 {
        return Err(NbtPathError::InvalidNode);
    }
    reader.skip();
    let start = reader.cursor();
    let ghost p = byte_is(quote);
    proof {
        reader.lemma_bytes();
        crate::string_reader::lemma_cut_after_ascii(v, start as int);
        lemma_first_index_from(v, p, start as int);
    }
    while reader.can_read() && reader.peek_byte() != quote
        invariant
            reader.text() == old(reader).text(),
            reader.bytes() == v,
            0 <= start <= reader.pos() <= v.len(),
            first_index_from(v, p, reader.pos()) == first_index_from(v, p, start as int),
        decreases v.len() - reader.pos(),
    {
        reader.skip();
    }
    proof {
        reader.lemma_bytes();
        lemma_first_index_from(v, p, reader.pos());
    }
    if !reader.can_read() {
        return Err(NbtPathError::InvalidNode);
    }
    let end = reader.cursor();
    proof {
        crate::string_reader::lemma_cut_at_ascii(v, end as int);
        crate::string_reader::lemma_cut_after_ascii(v, start as int);
    }
    let value = reader.slice_string(start, end);
    reader.skip();
    proof {
        reader.lemma_bytes();
        crate::string_reader::lemma_cut_after_ascii(v, reader.pos());
    }
    Ok(value)
}

/// A run of bytes up to a stop byte of `kind` (0: name, 1: token); empty is an error.
fn read_run(reader: &mut StringReaderModel, kind: u8) -> (r: Result<String, NbtPathError>)
    requires
        old(reader).at_cut(),
        kind <= 1,
    ensures
        advanced(*old(reader), *final(reader)),
        ({
            let v = old(reader).bytes();
            let p = old(reader).pos();
            let e = scan_end(v, p, if kind == 0 { name_stops() } else { token_stops() });
            &&& e >= p
            &&& if e > p {
                r matches Ok(s) && utf8(s@) == v.subrange(p, e) && final(reader).pos() == e
            } else {
                r == Err::<String, NbtPathError>(NbtPathError::InvalidNode) && final(reader).pos() == p
            }
        }),
{
    let start = reader.cursor();
    scan(reader, kind);
    let end = reader.cursor();
    if end == start {
        Err(NbtPathError::InvalidNode)
    } else {
        Ok(reader.slice_string(start, end))
    }
}

/// An optionally negative run of digits, as an index.
fn read_int(reader: &mut StringReaderModel) -> (r: Result<isize, NbtPathError>)
    requires
        old(reader).at_cut(),
    ensures
        advanced(*old(reader), *final(reader)),
        ({
            let v = old(reader).bytes();
            let p = old(reader).pos();
            let d = if p < v.len() && v[p] == 45u8 { p + 1 } else { p };
            let e = scan_end(v, d, digit_stops());
            &&& final(reader).pos() == e
            &&& (r matches Err(x) ==> x == NbtPathError::InvalidNode)
            &&& match crate::decimal::signed_decimal(v.subrange(p, e)) {
                Some(x) => if isize::MIN <= x <= isize::MAX { r == Ok::<isize, NbtPathError>(x as isize) } else { r is Err },
                None => r is Err,
            }
        }),
{
    proof {
        reader.lemma_bytes();
    }
    let start = reader.cursor();
    if reader.can_read() && reader.peek_byte() == 45 {
        reader.skip();
        proof {
            reader.lemma_bytes();
            crate::string_reader::lemma_cut_after_ascii(reader.bytes(), reader.pos());
        }
    }
    scan(reader, 2);
    let end = reader.cursor();
    proof {
        reader.lemma_bytes();
    }
    let text = reader.slice(start, end);
    match crate::decimal::parse_isize(text.as_bytes()) {
        Some(x) => Ok(x),
        None => Err(NbtPathError::InvalidNode),
    }
}

/// A quoted string at `p`: the bytes up to the next quote of the same kind,
/// and the position after that quote.
pub open spec fn quoted_read(v: Seq<u8>, p: int) -> (Option<Seq<u8>>, int) {
    let e = scan_end(v, p + 1, byte_is(v[p]));
    if e < v.len() { (Some(v.subrange(p + 1, e)), e + 1) } else { (None, e) }
}

/// A pattern token: an integer when it reads as an `i32`, else a string.
pub open spec fn token_value(tok: Seq<u8>) -> TagView {
    match crate::decimal::signed_decimal(tok) {
        Some(x) => if i32::MIN <= x <= i32::MAX { TagView::Int(x as i32) } else { TagView::Str(decode_utf8(tok)) },
        None => TagView::Str(decode_utf8(tok)),
    }
}

/// A pattern value at `p` (a compound pattern, a quoted string or a
/// token), and where it ends; `None` where it is malformed.
pub open spec fn pattern_value_read(v: Seq<u8>, p: int) -> (Option<TagView>, int)
    decreases v.len() - p, 1int,
{
    if !(0 <= p < v.len()) {
        (None, p)
    } else if v[p] == 123u8 {
        compound_pattern_read(v, p)
    } else if v[p] == 34u8 || v[p] == 39u8 {
        let q = quoted_read(v, p);
        match q.0 {
            Some(b) => (Some(TagView::Str(decode_utf8(b))), q.1),
            None => (None, q.1),
        }
    } else {
        let e = scan_end(v, p, token_stops());
        if e == p { (None, p) } else { (Some(token_value(v.subrange(p, e))), e) }
    }
}

/// A compound pattern `{...}` at `p`, and where it ends.
pub open spec fn compound_pattern_read(v: Seq<u8>, p: int) -> (Option<TagView>, int)
    decreases v.len() - p, 0int,
{
    if 0 <= p < v.len() && v[p] == 123u8 {
        let f = pattern_fields_from(v, p + 1, seq![]);
        match f.0 {
            Some(fs) => (Some(TagView::Compound(fs)), f.1),
            None => (None, f.1),
        }
    } else {
        (None, p)
    }
}

/// A pattern key at `q`: a quoted string or a token.
pub open spec fn pattern_key_read(v: Seq<u8>, q: int) -> (Option<Seq<u8>>, int) {
    if v[q] == 34u8 || v[q] == 39u8 {
        quoted_read(v, q)
    } else {
        let e = scan_end(v, q, token_stops());
        if e == q { (None, q) } else { (Some(v.subrange(q, e)), e) }
    }
}

/// The fields of a compound pattern from `q` on, after those in `acc`:
/// `key:value` (or `key=value`), each followed by an optional `,`, up to
/// the closing `}`; and where the pattern ends. (A field that is read
/// always moves on, within the text, so the reading ends.)
pub open spec fn pattern_fields_from(v: Seq<u8>, q: int, acc: Seq<(Seq<char>, TagView)>)
    -> (Option<Seq<(Seq<char>, TagView)>>, int)
    decreases v.len() - q, 2int,
{
    if !(0 <= q < v.len()) {
        (None, q)
    } else if v[q] == 125u8 {
        (Some(acc), q + 1)
    } else {
        let k = pattern_key_read(v, q);
        match k.0 {
            None => (None, k.1),
            Some(key) => {
                let s = k.1;
                if !(q < s < v.len() && (v[s] == 58u8 || v[s] == 61u8)) {
                    (None, s)
                } else {
                    let val = pattern_value_read(v, s + 1);
                    match val.0 {
                        None => (None, val.1),
                        Some(x) => {
                            let n = if val.1 < v.len() && v[val.1] == 44u8 { val.1 + 1 } else { val.1 };
                            if n <= q || n > v.len() {
                                (None, n)
                            } else {
                                pattern_fields_from(v, n, acc.push((decode_utf8(key), x)))
                            }
                        },
                    }
                }
            },
        }
    }
}

/// What a pattern reading gives.
pub open spec fn tag_result(r: Result<Tag, NbtPathError>) -> Option<TagView> {
    match r {
        Ok(t) => Some(t.deep()),
        Err(_) => None,
    }
}

/// A pattern value: a compound pattern, a quoted string, or a token that
/// is an integer when it reads as one and a string otherwise.
fn parse_pattern_value(reader: &mut StringReaderModel) -> (r: Result<Tag, NbtPathError>)
    requires
        old(reader).at_cut(),
    ensures
        advanced(*old(reader), *final(reader)),
        r matches Err(e) ==> e == NbtPathError::InvalidNode,
        tag_result(r) == pattern_value_read(old(reader).bytes(), old(reader).pos()).0,
        r is Ok ==> final(reader).pos() == pattern_value_read(old(reader).bytes(), old(reader).pos()).1
            && final(reader).pos() > old(reader).pos(),
    decreases old(reader).bytes().len() - old(reader).pos(), 1int,
{
    proof {
        reader.lemma_bytes();
    }
    if !reader.can_read() {
        return Err(NbtPathError::InvalidNode);
    }
    let b = reader.peek_byte();
    if b == 123 {
        parse_compound_pattern(reader)
    } else if b == 34 || b == 39 {
        match read_string(reader) {
            Ok(s) => {
                proof {
                    vstd::utf8::encode_utf8_decode_utf8(s@);
                }
                Ok(Tag::String(s))
            },
            Err(e) => Err(e),
        }
    } else {
        let token = match read_run(reader, 1) {
            Ok(x) => x,
            Err(e) => {
                return Err(e);
            },
        };
        proof {
            vstd::utf8::encode_utf8_decode_utf8(token@);
        }
        match crate::decimal::parse_i32(token.as_str().as_bytes()) {
            Some(x) => Ok(Tag::Int(x)),
            None => Ok(Tag::String(token)),
        }
    }
}

/// A compound pattern `{key:value,...}` (or `=` in place of `:`); keys are
/// quoted strings or tokens.
fn parse_compound_pattern(reader: &mut StringReaderModel) -> (r: Result<Tag, NbtPathError>)
    requires
        old(reader).at_cut(),
    ensures
        advanced(*old(reader), *final(reader)),
        r matches Err(e) ==> e == NbtPathError::InvalidNode,
        tag_result(r) == compound_pattern_read(old(reader).bytes(), old(reader).pos()).0,
        r is Ok ==> final(reader).pos() == compound_pattern_read(old(reader).bytes(), old(reader).pos()).1
            && final(reader).pos() > old(reader).pos(),
    decreases old(reader).bytes().len() - old(reader).pos(), 0int,
{
    let ghost v = reader.bytes();
    let ghost start = reader.pos();
    match expect(reader, 123) {
        Ok(_) => {},
        Err(e) => {
            return Err(e);
        },
    }
    let mut fields: Vec<(String, Tag)> = Vec::new();
    proof {
        assert(fields_view(fields@) =~= Seq::<(Seq<char>, TagView)>::empty());
    }
    loop
        invariant
            advanced(*old(reader), *reader),
            reader.bytes() == v,
            v == old(reader).bytes(),
            reader.pos() > start,
            start == old(reader).pos(),
            start < v.len() && v[start] == 123u8,
            pattern_fields_from(v, start + 1, seq![]) == pattern_fields_from(v, reader.pos(), fields_view(fields@)),
        decreases reader.bytes().len() - reader.pos(),
    {
        proof {
            reader.lemma_bytes();
        }
        let ghost q = reader.pos();
        if !reader.can_read() {
            return Err(NbtPathError::InvalidNode);
        }
        let b = reader.peek_byte();
        if b == 125 {
            reader.skip();
            proof {
                reader.lemma_bytes();
                crate::string_reader::lemma_cut_after_ascii(reader.bytes(), reader.pos());
            }
            return Ok(Tag::Compound(fields));
        }
        let read_key = if b == 34 || b == 39 {
            read_string(reader)
        } else {
            read_run(reader, 1)
        };
        let key = match read_key {
            Ok(k) => k,
            Err(e) => {
                return Err(e);
            },
        };
        proof {
            reader.lemma_bytes();
            vstd::utf8::encode_utf8_decode_utf8(key@);
        }
        if !reader.can_read() {
            return Err(NbtPathError::InvalidNode);
        }
        let sep = reader.peek_byte();
        if sep != 58 && sep != 61 {
            return Err(NbtPathError::InvalidNode);
        }
        reader.skip();
        proof {
            reader.lemma_bytes();
            crate::string_reader::lemma_cut_after_ascii(reader.bytes(), reader.pos());
        }
        let value = match parse_pattern_value(reader) {
            Ok(x) => x,
            Err(e) => {
                return Err(e);
            },
        };
        let ghost before = fields@;
        let ghost entry = (key@, value.deep());
        fields.push((key, value));
        proof {
            assert(fields@.drop_last() =~= before);
            assert(fields_view(fields@) == fields_view(before).push(entry));
            reader.lemma_bytes();
        }
        if reader.can_read() && reader.peek_byte() == 44 {
            reader.skip();
            proof {
                reader.lemma_bytes();
                crate::string_reader::lemma_cut_after_ascii(reader.bytes(), reader.pos());
            }
        }
    }
}

/// After a name (its bytes `name`), at `e`: an object node when a compound
/// pattern follows, else a child node; an empty name is malformed.
pub open spec fn object_node_read(v: Seq<u8>, e: int, name: Seq<u8>) -> (Option<NodeView>, int) {
    if name.len() == 0 {
        (None, e)
    } else if 0 <= e < v.len() && v[e] == 123u8 {
        let pat = compound_pattern_read(v, e);
        match pat.0 {
            Some(t) => (Some(NodeView::MatchObject(decode_utf8(name), t)), pat.1),
            None => (None, pat.1),
        }
    } else {
        (Some(NodeView::CompoundChild(decode_utf8(name))), e)
    }
}

/// One path node at `p`, chosen by its first byte (`first`: it is the
/// first node of the path), and where it ends; `None` where it is
/// malformed.
pub open spec fn node_read(v: Seq<u8>, p: int, first: bool) -> (Option<NodeView>, int) {
    let b = v[p];
    if b == 34u8 || b == 39u8 {
        let q = quoted_read(v, p);
        match q.0 {
            Some(name) => object_node_read(v, q.1, name),
            None => (None, q.1),
        }
    } else if b == 91u8 {
        let c = p + 1;
        if c >= v.len() {
            (None, c)
        } else if v[c] == 123u8 {
            let pat = compound_pattern_read(v, c);
            match pat.0 {
                Some(t) => if pat.1 < v.len() && v[pat.1] == 93u8 {
                    (Some(NodeView::MatchElement(t)), pat.1 + 1)
                } else {
                    (None, pat.1)
                },
                None => (None, pat.1),
            }
        } else if v[c] == 93u8 {
            (Some(NodeView::AllElements), c + 1)
        } else {
            let d = if v[c] == 45u8 { c + 1 } else { c };
            let e = scan_end(v, d, digit_stops());
            match crate::decimal::signed_decimal(v.subrange(c, e)) {
                Some(x) => if isize::MIN <= x <= isize::MAX && e < v.len() && v[e] == 93u8 {
                    (Some(NodeView::IndexedElement(x as isize)), e + 1)
                } else {
                    (None, e)
                },
                None => (None, e),
            }
        }
    } else if b == 123u8 {
        if first {
            let pat = compound_pattern_read(v, p);
            match pat.0 {
                Some(t) => (Some(NodeView::MatchRootObject(t)), pat.1),
                None => (None, pat.1),
            }
        } else {
            (None, p)
        }
    } else {
        let e = scan_end(v, p, name_stops());
        object_node_read(v, e, v.subrange(p, e))
    }
}

/// What a node reading gives.
pub open spec fn node_result(r: Result<PathNodeModel, NbtPathError>) -> Option<NodeView> {
    match r {
        Ok(n) => Some(n.deep()),
        Err(_) => None,
    }
}

/// After a name: an object node when a compound pattern follows, else a child node.
fn read_object_node(reader: &mut StringReaderModel, name: String) -> (r: Result<PathNodeModel, NbtPathError>)
    requires
        old(reader).at_cut(),
    ensures
        advanced(*old(reader), *final(reader)),
        r matches Err(e) ==> e == NbtPathError::InvalidNode,
        node_result(r) == object_node_read(old(reader).bytes(), old(reader).pos(), utf8(name@)).0,
        r is Ok ==> final(reader).pos() == object_node_read(old(reader).bytes(), old(reader).pos(), utf8(name@)).1,
{
    proof {
        vstd::utf8::encode_utf8_decode_utf8(name@);
    }
    if name.as_str().as_bytes().len() == 0 {
        return Err(NbtPathError::InvalidNode);
    }
    proof {
        reader.lemma_bytes();
    }
    if reader.can_read() && reader.peek_byte() == 123 {
        let pattern = match parse_compound_pattern(reader) {
            Ok(x) => x,
            Err(e) => {
                return Err(e);
            },
        };
        Ok(PathNodeModel::MatchObject { name, pattern })
    } else {
        Ok(PathNodeModel::CompoundChild(name))
    }
}

/// One path node, chosen by its first byte: a quoted or plain name (with
/// an optional compound pattern), `[` with a pattern, `]` or an index, or
/// `{` for a pattern on the root, which only the first node may be.
fn parse_node(reader: &mut StringReaderModel, first_node: bool) -> (r: Result<PathNodeModel, NbtPathError>)
    requires
        old(reader).at_cut(),
        old(reader).pos() < old(reader).bytes().len(),
    ensures
        advanced(*old(reader), *final(reader)),
        r matches Err(e) ==> e == NbtPathError::InvalidNode,
        node_result(r) == node_read(old(reader).bytes(), old(reader).pos(), first_node).0,
        r is Ok ==> final(reader).pos() == node_read(old(reader).bytes(), old(reader).pos(), first_node).1
            && final(reader).pos() > old(reader).pos(),
{
    proof {
        reader.lemma_bytes();
    }
    let b = reader.peek_byte();
    if b == 34 || b == 39 {
        let name = match read_string(reader) {
            Ok(x) => x,
            Err(e) => {
                return Err(e);
            },
        };
        read_object_node(reader, name)
    } else if b == 91 {
        reader.skip();
        proof {
            reader.lemma_bytes();
            crate::string_reader::lemma_cut_after_ascii(reader.bytes(), reader.pos());
        }
        if !reader.can_read() {
            return Err(NbtPathError::InvalidNode);
        }
        let c = reader.peek_byte();
        if c == 123 {
            let pattern = match parse_compound_pattern(reader) {
                Ok(x) => x,
                Err(e) => {
                    return Err(e);
                },
            };
            match expect(reader, 93) {
                Ok(_) => {},
                Err(e) => {
                    return Err(e);
                },
            }
            Ok(PathNodeModel::MatchElement(pattern))
        } else if c == 93 {
            reader.skip();
            proof {
                reader.lemma_bytes();
                crate::string_reader::lemma_cut_after_ascii(reader.bytes(), reader.pos());
            }
            Ok(PathNodeModel::AllElements)
        } else {
            let index = match read_int(reader) {
                Ok(x) => x,
                Err(e) => {
                    return Err(e);
                },
            };
            match expect(reader, 93) {
                Ok(_) => {},
                Err(e) => {
                    return Err(e);
                },
            }
            Ok(PathNodeModel::IndexedElement(index))
        }
    } else if b == 123 {
        if !first_node {
            return Err(NbtPathError::InvalidNode);
        }
        let pattern = match parse_compound_pattern(reader) {
            Ok(x) => x,
            Err(e) => {
                return Err(e);
            },
        };
        Ok(PathNodeModel::MatchRootObject(pattern))
    } else {
        let name = match read_run(reader, 0) {
            Ok(x) => x,
            Err(e) => {
                return Err(e);
            },
        };
        read_object_node(reader, name)
    }
}

/// The nodes of a path from `q` on, after those in `nodes` (which end at
/// `ends`): nodes up to a space or the end of the text, each but the last
/// followed by `.` unless a `[` or `{` node follows; and where the path
/// ends. `None` where it is malformed. (A node that is read always moves
/// on, within the text, so the reading ends.)
pub open spec fn path_nodes_from(v: Seq<u8>, q: int, nodes: Seq<NodeView>, ends: Seq<int>)
    -> (Option<(Seq<NodeView>, Seq<int>)>, int)
    decreases v.len() - q,
{
    if !(0 <= q < v.len() && v[q] != 32u8) {
        (Some((nodes, ends)), q)
    } else {
        let n = node_read(v, q, nodes.len() == 0);
        match n.0 {
            None => (None, n.1),
            Some(node) => {
                let e = n.1;
                let dot = e < v.len() && v[e] != 32u8 && v[e] != 91u8 && v[e] != 123u8;
                if dot && v[e] != 46u8 {
                    (None, e)
                } else {
                    let m = if dot { e + 1 } else { e };
                    if m <= q || m > v.len() {
                        (None, m)
                    } else {
                        path_nodes_from(v, m, nodes.push(node), ends.push(e))
                    }
                }
            },
        }
    }
}

/// A path at `p`: its nodes, the positions where they end, and where the
/// path ends.
pub open spec fn path_read(v: Seq<u8>, p: int) -> (Option<(Seq<NodeView>, Seq<int>)>, int) {
    path_nodes_from(v, p, seq![], seq![])
}

/// What a path reading gives, at `p`: its nodes, with where they end.
pub open spec fn path_is(path: NbtPathModel, p: int, res: (Seq<NodeView>, Seq<int>)) -> bool {
    &&& path.nodes_deep() == res.0
    &&& path.positions().len() == res.1.len()
    &&& forall|i: int| 0 <= i < res.1.len() ==> p + #[trigger] path.positions()[i] == res.1[i]
}

/// Nodes up to a space or the end of the text: after each node but the
/// last, a `.` unless a `[` or `{` node follows.
#[verifier::rlimit(40)]
fn parse_path(reader: &mut StringReaderModel) -> (r: Result<NbtPathModel, NbtPathError>)
    requires
        old(reader).at_cut(),
    ensures
        final(reader).text() == old(reader).text(),
        final(reader).at_cut(),
        r matches Err(e) ==> e == NbtPathError::InvalidNode,
        match path_read(old(reader).bytes(), old(reader).pos()).0 {
            Some(res) => r matches Ok(path) && path_is(path, old(reader).pos(), res)
                && final(reader).pos() == path_read(old(reader).bytes(), old(reader).pos()).1,
            None => r is Err,
        },
        r matches Ok(path) ==> {
            let v = old(reader).bytes();
            let n = path.nodes_deep().len();
            &&& path.wf()
            &&& utf8(path.original_view()) == v.subrange(old(reader).pos(), final(reader).pos())
            &&& (final(reader).pos() == v.len() || v[final(reader).pos()] == 32u8)
            &&& forall|i: int| 0 < i < n ==> !(#[trigger] path.nodes_deep()[i] is MatchRootObject)
            &&& forall|i: int, j: int| 0 <= i < j < n ==> path.positions()[i] < path.positions()[j]
        },
{
    proof {
        reader.lemma_bytes();
    }
    let ghost v = reader.bytes();
    let mut nodes: Vec<PathNodeModel> = Vec::new();
    let mut positions: Vec<usize> = Vec::new();
    let start = reader.cursor();
    let mut first_node = true;
    let ghost mut ends: Seq<int> = seq![];
    proof {
        assert(nodes_view(nodes@) =~= Seq::<NodeView>::empty());
    }
    while reader.can_read() && reader.peek_byte() != 32
        invariant
            advanced(*old(reader), *reader),
            ends.len() == positions@.len(),
            forall|i: int| 0 <= i < ends.len() ==> start + #[trigger] positions@[i] == ends[i],
            path_read(v, start as int) == path_nodes_from(v, reader.pos(), nodes_view(nodes@), ends),
            v == reader.bytes(),
            start == old(reader).pos(),
            nodes@.len() == positions@.len(),
            first_node == (nodes@.len() == 0),
            forall|i: int| 0 <= i < positions@.len() ==> cut_point(v, start + #[trigger] positions@[i]),
            forall|i: int| 0 <= i < positions@.len() ==> start + #[trigger] positions@[i] <= reader.pos(),
            forall|i: int, j: int| 0 <= i < j < positions@.len() ==> positions@[i] < positions@[j],
            forall|i: int| 0 < i < nodes@.len() ==> !((#[trigger] nodes@[i]).deep() is MatchRootObject),
        decreases v.len() - reader.pos(),
    {
        proof {
            reader.lemma_bytes();
        }
        let node = match parse_node(reader, first_node) {
            Ok(x) => x,
            Err(e) => {
                return Err(e);
            },
        };
        let ghost before = positions@;
        let ghost before_nodes = nodes@;
        let ghost e = reader.pos();
        nodes.push(node);
        positions.push(reader.cursor() - start);
        first_node = false;
        proof {
            assert(nodes_view(nodes@) =~= nodes_view(before_nodes).push(nodes@.last().deep()));
            let old_ends = ends;
            ends = ends.push(e);
            assert forall|i: int| 0 <= i < ends.len() implies start + #[trigger] positions@[i] == ends[i] by {
                if i < old_ends.len() {
                    assert(positions@[i] == before[i]);
                }
            }
            reader.lemma_bytes();
            assert forall|i: int| 0 <= i < positions@.len() implies cut_point(v, start + #[trigger] positions@[i]) by {
                if i < before.len() {
                    assert(positions@[i] == before[i]);
                }
            }
        }
        if reader.can_read() {
            let next = reader.peek_byte();
            if next != 32 && next != 91 && next != 123 {
                match expect(reader, 46) {
                    Ok(_) => {},
                    Err(e) => {
                        return Err(e);
                    },
                }
            }
        }
    }
    let end = reader.cursor();
    proof {
        reader.lemma_bytes();
        assert(cut_point(v, start as int));
    }
    let original = reader.slice_string(start, end);
    let path = NbtPathModel { original, nodes, node_end_positions: positions };
    proof {
        let sub = v.subrange(start as int, end as int);
        assert(utf8(path.original@) == sub);
        assert forall|i: int| 0 <= i < path.node_end_positions@.len()
            implies cut_point(utf8(path.original@), #[trigger] path.node_end_positions@[i] as int) by {
            let k = path.node_end_positions@[i] as int;
            assert(cut_point(v, start + k));
            if 0 < k < sub.len() {
                assert(sub[k] == v[start + k]);
            }
        }
        assert forall|i: int| 0 < i < path.nodes@.len() implies !(#[trigger] path.nodes_deep()[i] is MatchRootObject) by {
            assert(path.nodes_deep()[i] == path.nodes@[i].deep());
        }
    }
    Ok(path)
}

impl NbtPathArgumentModel {
    pub fn parse(&self, reader: &mut StringReaderModel) -> (r: Result<NbtPathModel, NbtPathError>)
        requires
            old(reader).at_cut(),
        ensures
            final(reader).text() == old(reader).text(),
            final(reader).at_cut(),
            r matches Err(e) ==> e == NbtPathError::InvalidNode,
            match path_read(old(reader).bytes(), old(reader).pos()).0 {
                Some(res) => r matches Ok(path) && path_is(path, old(reader).pos(), res)
                    && final(reader).pos() == path_read(old(reader).bytes(), old(reader).pos()).1,
                None => r is Err,
            },
            r matches Ok(path) ==> {
                let v = old(reader).bytes();
                &&& path.wf()
                &&& utf8(path.original_view()) == v.subrange(old(reader).pos(), final(reader).pos())
                &&& (final(reader).pos() == v.len() || v[final(reader).pos()] == 32u8)
            },
    {
        parse_path(reader)
    }
}

impl NbtPathModel {
    /// The path that the whole of `input` spells, up to a space.
    pub fn of(input: &str) -> (r: Result<Self, NbtPathError>)
        ensures
            r matches Err(e) ==> e == NbtPathError::InvalidNode,
            match path_read(utf8(input@), 0).0 {
                Some(res) => r matches Ok(path) && path_is(path, 0, res)
                    && utf8(path.original_view()) == utf8(input@).subrange(0, path_read(utf8(input@), 0).1),
                None => r is Err,
            },
            r matches Ok(path) ==> path.wf() && utf8(input@).subrange(0, utf8(path.original_view()).len() as int)
                == utf8(path.original_view()),
    {
        let mut reader = StringReaderModel::new(input);
        let r = NbtPathArgumentModel::nbt_path().parse(&mut reader);
        proof {
            reader.lemma_bytes();
        }
        r
    }
}

impl PathNodeModel {
    fn copy(&self) -> (r: Self)
        ensures
            r.deep() == self.deep(),
    {
        match self {
            PathNodeModel::CompoundChild(name) => PathNodeModel::CompoundChild(name.clone()),
            PathNodeModel::IndexedElement(i) => PathNodeModel::IndexedElement(*i),
            PathNodeModel::AllElements => PathNodeModel::AllElements,
            PathNodeModel::MatchElement(p) => PathNodeModel::MatchElement(p.copy()),
            PathNodeModel::MatchObject { name, pattern } => PathNodeModel::MatchObject { name: name.clone(), pattern: pattern.copy() },
            PathNodeModel::MatchRootObject(p) => PathNodeModel::MatchRootObject(p.copy()),
        }
    }
}

impl NbtPathModel {
    /// A copy with the same text, nodes and node end positions.
    pub fn copy(&self) -> (r: Self)
        ensures
            r.original_view() == self.original_view(),
            r.nodes_deep() == self.nodes_deep(),
            r.positions() == self.positions(),
            self.wf() ==> r.wf(),
    {
        let mut nodes: Vec<PathNodeModel> = Vec::new();
        let mut i: usize = 0;
        while i < self.nodes.len()
            invariant
                0 <= i <= self.nodes@.len(),
                nodes@.len() == i,
                forall|k: int| 0 <= k < i ==> (#[trigger] nodes@[k]).deep() == self.nodes@[k].deep(),
            decreases self.nodes@.len() - i,
        {
            nodes.push(self.nodes[i].copy());
            i = i + 1;
        }
        let mut positions: Vec<usize> = Vec::new();
        let mut j: usize = 0;
        while j < self.node_end_positions.len()
            invariant
                0 <= j <= self.node_end_positions@.len(),
                positions@ == self.node_end_positions@.subrange(0, j as int),
            decreases self.node_end_positions@.len() - j,
        {
            positions.push(self.node_end_positions[j]);
            j = j + 1;
            assert(positions@ =~= self.node_end_positions@.subrange(0, j as int));
        }
        assert(positions@ =~= self.node_end_positions@);
        let r = NbtPathModel { original: self.original.clone(), nodes, node_end_positions: positions };
        assert(nodes_view(r.nodes@) =~= nodes_view(self.nodes@));
        r
    }
}

impl Clone for NbtPathModel {
    fn clone(&self) -> (r: Self)
        ensures
            r.original_view() == self.original_view(),
            r.nodes_deep() == self.nodes_deep(),
            r.positions() == self.positions(),
    {
        self.copy()
    }
}

impl Clone for PathNodeModel {
    fn clone(&self) -> (r: Self)
        ensures
            r.deep() == self.deep(),
    {
        self.copy()
    }
}

/// A copy of the path bound to `name`.
pub fn get_path(context: &CommandContextModel, name: &str) -> (r: Option<NbtPathModel>)
    ensures
        r is Some <==> context.view().contains_key(name@),
        r matches Some(p) ==> p.original_view() == context.view()[name@].original_view()
            && p.nodes_deep() == context.view()[name@].nodes_deep()
            && p.positions() == context.view()[name@].positions(),
{
    match context.paths.get(name) {
        Some(p) => Some(p.copy()),
        None => None,
    }
}

/// A count as `usize` arithmetic that stops at the largest value gives it.
pub open spec fn sat(n: int) -> int {
    if n > usize::MAX { usize::MAX as int } else { n }
}

proof fn lemma_sat_add(x: int, y: int)
    requires
        x >= 0,
        y >= 0,
    ensures
        sat(sat(x) + sat(y)) == sat(x + y),
{
}

fn sat_add(a: usize, b: usize) -> (r: usize)
    ensures
        r == sat(a + b),
{
    if a > usize::MAX - b { usize::MAX } else { a + b }
}

/// The tag that a missing parent of `node` is created as.
pub open spec fn preferred_parent(node: NodeView) -> TagView {
    match node {
        NodeView::CompoundChild(_) | NodeView::MatchObject(_, _) | NodeView::MatchRootObject(_) => TagView::Compound(seq![]),
        _ => TagView::List(seq![]),
    }
}

/// The fields with `name` set to `value`: the first field of that name is
/// replaced, or the field is added at the end.
pub open spec fn put_field(f: Seq<(Seq<char>, TagView)>, name: Seq<char>, value: TagView) -> Seq<(Seq<char>, TagView)> {
    let i = first_index(f, named(name));
    if i >= 0 { f.update(i, (name, value)) } else { f.push((name, value)) }
}

pub open spec fn differs(value: TagView) -> spec_fn(TagView) -> bool {
    |x: TagView| x != value
}

/// Elements that match `pattern` and differ from `value` become `value`.
pub open spec fn replace_stale(pattern: TagView, value: TagView) -> spec_fn(TagView) -> TagView {
    |x: TagView| if matches_pattern(pattern, x) && x != value { value } else { x }
}

pub open spec fn stale_match(pattern: TagView, value: TagView) -> spec_fn(TagView) -> bool {
    |x: TagView| matches_pattern(pattern, x) && x != value
}

/// Setting `value` at the last node under `parent`, and how many tags changed.
pub open spec fn set_last_spec(parent: TagView, node: NodeView, value: TagView) -> (TagView, nat) {
    match node {
        NodeView::CompoundChild(name) => match parent {
            TagView::Compound(f) => (
                TagView::Compound(put_field(f, name, value)),
                if child(parent, name) == Some(value) { 0nat } else { 1nat },
            ),
            _ => (parent, 1nat),
        },
        NodeView::IndexedElement(index) => match parent {
            TagView::List(vs) => match list_position(vs.len() as int, index as int) {
                Some(p) => if vs[p] != value { (TagView::List(vs.update(p, value)), 1nat) } else { (parent, 0nat) },
                None => (parent, 0nat),
            },
            _ => (parent, 0nat),
        },
        NodeView::AllElements => match parent {
            TagView::List(vs) => if vs.len() == 0 {
                (TagView::List(seq![value]), 1nat)
            } else {
                let c = vs.filter(differs(value)).len();
                if c > 0 { (TagView::List(Seq::new(vs.len(), |j: int| value)), c) } else { (parent, 0nat) }
            },
            _ => (parent, 0nat),
        },
        NodeView::MatchElement(pattern) => match parent {
            TagView::List(vs) => if vs.len() == 0 {
                (TagView::List(seq![value]), 1nat)
            } else {
                (
                    TagView::List(vs.map_values(replace_stale(pattern, value))),
                    vs.filter(stale_match(pattern, value)).len(),
                )
            },
            _ => (parent, 0nat),
        },
        NodeView::MatchObject(name, pattern) => match parent {
            TagView::Compound(f) => {
                let i = first_index(f, named(name));
                if i >= 0 && matches_pattern(pattern, f[i].1) && f[i].1 != value {
                    (TagView::Compound(f.update(i, (name, value))), 1nat)
                } else {
                    (parent, 0nat)
                }
            },
            _ => (parent, 0nat),
        },
        NodeView::MatchRootObject(_) => (parent, 0nat),
    }
}

fn take(tag: &mut Tag) -> (r: Tag)
    ensures
        r == *old(tag),
{
    let mut out = Tag::Int(0);
    std::mem::swap(tag, &mut out);
    out
}

/// Sets `value` at the last node under `parent`; the number of tags changed.
#[verifier::rlimit(40)]
fn set_last(parent: &mut Tag, node: &PathNodeModel, value: &Tag) -> (r: usize)
    ensures
        final(parent).deep() == set_last_spec(old(parent).deep(), node.deep(), value.deep()).0,
        r == set_last_spec(old(parent).deep(), node.deep(), value.deep()).1,
{
    let ghost pv = old(parent).deep();
    let ghost vv = value.deep();
    let t = take(parent);
    match node {
        PathNodeModel::CompoundChild(name) => match t {
            Tag::Compound(fields) => {
                let mut fields = fields;
                proof {
                    lemma_fields_view(fields@);
                }
                let ghost f0 = fields@;
                match field_position(&fields, name.as_str()) {
                    Some(i) => {
                        let same = fields[i].1.equals(value);
                        let (n, _) = fields.remove(i);
                        fields.insert(i, (n, value.copy()));
                        proof {
                            lemma_first_index_from(fields_view(f0), named(name@), 0);
                            assert forall|k: int| 0 <= k < fields@.len() implies ((#[trigger] fields@[k]).0@, fields@[k].1.deep())
                                == fields_view(f0).update(i as int, (name@, vv))[k] by {
                                if k != i {
                                    assert(fields@[k] == f0[k]);
                                }
                            }
                            lemma_fields_view_is(fields@, fields_view(f0).update(i as int, (name@, vv)));
                        }
                        *parent = Tag::Compound(fields);
                        if same { 0 } else { 1 }
                    },
                    None => {
                        fields.push((name.clone(), value.copy()));
                        proof {
                            lemma_fields_view_is(fields@, fields_view(f0).push((name@, vv)));
                        }
                        *parent = Tag::Compound(fields);
                        1
                    },
                }
            },
            other => {
                *parent = other;
                1
            },
        },
        PathNodeModel::IndexedElement(index) => match t {
            Tag::List(values) => {
                let mut values = values;
                proof {
                    lemma_list_view(values@);
                }
                let ghost l0 = values@;
                match list_index(values.len(), *index) {
                    Some(p) => {
                        if values[p].equals(value) {
                            *parent = Tag::List(values);
                            0
                        } else {
                            values.remove(p);
                            values.insert(p, value.copy());
                            proof {
                                lemma_list_view_is(values@, list_view(l0).update(p as int, vv));
                            }
                            *parent = Tag::List(values);
                            1
                        }
                    },
                    None => {
                        *parent = Tag::List(values);
                        0
                    },
                }
            },
            other => {
                *parent = other;
                0
            },
        },
        PathNodeModel::AllElements => match t {
            Tag::List(values) => {
                let mut values = values;
                proof {
                    lemma_list_view(values@);
                }
                let ghost lv = list_view(values@);
                if values.len() == 0 {
                    values.push(value.copy());
                    proof {
                        lemma_list_view_is(values@, seq![vv]);
                    }
                    *parent = Tag::List(values);
                    1
                } else {
                    let mut changed: usize = 0;
                    let mut i: usize = 0;
                    while i < values.len()
                        invariant
                            0 <= i <= values@.len(),
                            lv == list_view(values@),
                            lv.len() == values@.len(),
                            changed == lv.subrange(0, i as int).filter(differs(vv)).len(),
                            changed <= i,
                        decreases values@.len() - i,
                    {
                        proof {
                            reveal_with_fuel(Seq::<TagView>::filter, 1);
                            assert(lv.subrange(0, i + 1).drop_last() =~= lv.subrange(0, i as int));
                        }
                        if !values[i].equals(value) {
                            changed = changed + 1;
                        }
                        i = i + 1;
                    }
                    assert(lv.subrange(0, values@.len() as int) =~= lv);
                    if changed > 0 {
                        let n = values.len();
                        let mut filled: Vec<Tag> = Vec::new();
                        let mut j: usize = 0;
                        while j < n
                            invariant
                                0 <= j <= n,
                                filled@.len() == j,
                                forall|k: int| 0 <= k < j ==> (#[trigger] filled@[k]).deep() == vv,
                            decreases n - j,
                        {
                            filled.push(value.copy());
                            j = j + 1;
                        }
                        proof {
                            lemma_list_view_is(filled@, Seq::new(n as nat, |j: int| vv));
                            assert(Seq::new(n as nat, |j: int| vv) =~= Seq::new(lv.len(), |j: int| value.deep()));
                        }
                        *parent = Tag::List(filled);
                    } else {
                        *parent = Tag::List(values);
                    }
                    changed
                }
            },
            other => {
                *parent = other;
                0
            },
        },
        PathNodeModel::MatchElement(pattern) => match t {
            Tag::List(values) => {
                proof {
                    lemma_list_view(values@);
                }
                let ghost lv = list_view(values@);
                if values.len() == 0 {
                    let mut values = values;
                    values.push(value.copy());
                    proof {
                        lemma_list_view_is(values@, seq![vv]);
                    }
                    *parent = Tag::List(values);
                    1
                } else {
                    let ghost pat = pattern.deep();
                    let mut out: Vec<Tag> = Vec::new();
                    let mut changed: usize = 0;
                    let mut i: usize = 0;
                    while i < values.len()
                        invariant
                            0 <= i <= values@.len(),
                            lv == list_view(values@),
                            lv.len() == values@.len(),
                            out@.len() == i,
                            forall|k: int| 0 <= k < i ==> (#[trigger] out@[k]).deep()
                                == (if matches_pattern(pat, lv[k]) && lv[k] != vv { vv } else { lv[k] }),
                            changed == lv.subrange(0, i as int).filter(stale_match(pat, vv)).len(),
                            changed <= i,
                        decreases values@.len() - i,
                    {
                        proof {
                            reveal_with_fuel(Seq::<TagView>::filter, 1);
                            assert(lv.subrange(0, i + 1).drop_last() =~= lv.subrange(0, i as int));
                        }
                        if compare_nbt(pattern, &values[i]) && !values[i].equals(value) {
                            out.push(value.copy());
                            changed = changed + 1;
                        } else {
                            out.push(values[i].copy());
                        }
                        i = i + 1;
                    }
                    assert(lv.subrange(0, values@.len() as int) =~= lv);
                    proof {
                        lemma_list_view_is(out@, lv.map_values(replace_stale(pat, vv)));
                    }
                    *parent = Tag::List(out);
                    changed
                }
            },
            other => {
                *parent = other;
                0
            },
        },
        PathNodeModel::MatchObject { name, pattern } => match t {
            Tag::Compound(fields) => {
                let mut fields = fields;
                proof {
                    lemma_fields_view(fields@);
                }
                let ghost f0 = fields@;
                match field_position(&fields, name.as_str()) {
                    Some(i) => {
                        if compare_nbt(pattern, &fields[i].1) && !fields[i].1.equals(value) {
                            let (n, _) = fields.remove(i);
                            fields.insert(i, (n, value.copy()));
                            proof {
                                lemma_first_index_from(fields_view(f0), named(name@), 0);
                                assert(fields@ == f0.remove(i as int).insert(i as int, fields@[i as int]));
                                assert forall|k: int| 0 <= k < fields@.len() implies ((#[trigger] fields@[k]).0@, fields@[k].1.deep())
                                    == fields_view(f0).update(i as int, (name@, vv))[k] by {
                                    if k != i {
                                        assert(fields@[k] == f0[k]);
                                    }
                                }
                                lemma_fields_view_is(fields@, fields_view(f0).update(i as int, (name@, vv)));
                            }
                            *parent = Tag::Compound(fields);
                            1
                        } else {
                            *parent = Tag::Compound(fields);
                            0
                        }
                    },
                    None => {
                        *parent = Tag::Compound(fields);
                        0
                    },
                }
            },
            other => {
                *parent = other;
                0
            },
        },
        PathNodeModel::MatchRootObject(_) => {
            *parent = t;
            0
        },
    }
}

/// Setting `value` at the nodes from `k` on, below `t`, creating missing
/// parents of child nodes; and how many tags changed.
pub open spec fn set_tree(t: TagView, nodes: Seq<NodeView>, k: int, value: TagView) -> (TagView, nat)
    decreases nodes.len() - k, 1int, 0int,
{
    if k < 0 || k >= nodes.len() {
        (t, 0nat)
    } else if k + 1 == nodes.len() {
        set_last_spec(t, nodes[k], value)
    } else {
        match nodes[k] {
            NodeView::CompoundChild(name) => match t {
                TagView::Compound(f) => {
                    let i = first_index(f, named(name));
                    if i >= 0 {
                        let (c, n) = set_tree(f[i].1, nodes, k + 1, value);
                        (TagView::Compound(f.update(i, (name, c))), n)
                    } else {
                        let (c, n) = set_tree(preferred_parent(nodes[k + 1]), nodes, k + 1, value);
                        (TagView::Compound(f.push((name, c))), n)
                    }
                },
                _ => (t, 0nat),
            },
            NodeView::IndexedElement(index) => match t {
                TagView::List(vs) => match list_position(vs.len() as int, index as int) {
                    Some(p) => {
                        let (c, n) = set_tree(vs[p], nodes, k + 1, value);
                        (TagView::List(vs.update(p, c)), n)
                    },
                    None => (t, 0nat),
                },
                _ => (t, 0nat),
            },
            NodeView::AllElements => match t {
                TagView::List(vs) => {
                    let (ws, n) = set_each(vs, None, nodes, k + 1, value, vs.len() as int);
                    (TagView::List(ws), n)
                },
                _ => (t, 0nat),
            },
            NodeView::MatchElement(pattern) => match t {
                TagView::List(vs) => {
                    let (ws, n) = set_each(vs, Some(pattern), nodes, k + 1, value, vs.len() as int);
                    (TagView::List(ws), n)
                },
                _ => (t, 0nat),
            },
            NodeView::MatchObject(name, pattern) => match t {
                TagView::Compound(f) => {
                    let i = first_index(f, named(name));
                    if i >= 0 && matches_pattern(pattern, f[i].1) {
                        let (c, n) = set_tree(f[i].1, nodes, k + 1, value);
                        (TagView::Compound(f.update(i, (name, c))), n)
                    } else {
                        (t, 0nat)
                    }
                },
                _ => (t, 0nat),
            },
            NodeView::MatchRootObject(pattern) => if matches_pattern(pattern, t) {
                set_tree(t, nodes, k + 1, value)
            } else {
                (t, 0nat)
            },
        }
    }
}

/// The first `n` elements after setting `value` below each of them (each
/// that matches `pattern`, when there is one), and the changes summed.
pub open spec fn set_each(vs: Seq<TagView>, pattern: Option<TagView>, nodes: Seq<NodeView>, k: int, value: TagView, n: int) -> (Seq<TagView>, nat)
    decreases nodes.len() - k + 1, 0int, n,
{
    if n <= 0 || n > vs.len() || k < 1 || k > nodes.len() {
        (seq![], 0nat)
    } else {
        let (ws, c) = set_each(vs, pattern, nodes, k, value, n - 1);
        let x = vs[n - 1];
        if pattern matches Some(p) && !matches_pattern(p, x) {
            (ws.push(x), c)
        } else {
            let (y, d) = set_tree(x, nodes, k, value);
            (ws.push(y), c + d)
        }
    }
}

proof fn lemma_set_each_len(vs: Seq<TagView>, pattern: Option<TagView>, nodes: Seq<NodeView>, k: int, value: TagView, n: int)
    requires
        0 <= n <= vs.len(),
        1 <= k <= nodes.len(),
    ensures
        set_each(vs, pattern, nodes, k, value, n).0.len() == n,
    decreases n,
{
    if n > 0 {
        lemma_set_each_len(vs, pattern, nodes, k, value, n - 1);
    }
}

fn preferred_parent_tag(node: &PathNodeModel) -> (r: Tag)
    ensures
        r.deep() == preferred_parent(node.deep()),
{
    let r = match node {
        PathNodeModel::CompoundChild(_) | PathNodeModel::MatchObject { .. } | PathNodeModel::MatchRootObject(_) => Tag::Compound(Vec::new()),
        _ => Tag::List(Vec::new()),
    };
    proof {
        lemma_fields_view(Seq::<(String, Tag)>::empty());
        lemma_list_view(Seq::<Tag>::empty());
        assert(fields_view(Seq::<(String, Tag)>::empty()) =~= Seq::<(Seq<char>, TagView)>::empty());
        assert(list_view(Seq::<Tag>::empty()) =~= Seq::<TagView>::empty());
    }
    r
}

/// Sets `value` at the nodes from `k` on below `tag`; the number of tags changed.
fn set_at(tag: &mut Tag, nodes: &Vec<PathNodeModel>, k: usize, value: &Tag) -> (r: usize)
    requires
        k <= nodes@.len(),
    ensures
        final(tag).deep() == set_tree(old(tag).deep(), nodes_view(nodes@), k as int, value.deep()).0,
        r == sat(set_tree(old(tag).deep(), nodes_view(nodes@), k as int, value.deep()).1 as int),
    decreases nodes@.len() - k,
{
    let ghost nv = nodes_view(nodes@);
    let ghost tv = old(tag).deep();
    let ghost vv = value.deep();
    if k >= nodes.len() {
        return 0;
    }
    assert(nv[k as int] == nodes@[k as int].deep());
    if k + 1 == nodes.len() {
        return set_last(tag, &nodes[k], value);
    }
    let t = take(tag);
    match &nodes[k] {
        PathNodeModel::CompoundChild(name) => match t {
            Tag::Compound(fields) => {
                let mut fields = fields;
                proof {
                    lemma_fields_view(fields@);
                }
                let ghost f0 = fields@;
                let ghost fv = fields_view(f0);
                match field_position(&fields, name.as_str()) {
                    Some(i) => {
                        proof {
                            lemma_first_index_from(fv, named(name@), 0);
                        }
                        let (n, mut c) = fields.remove(i);
                        let cnt = set_at(&mut c, nodes, k + 1, value);
                        fields.insert(i, (n, c));
                        proof {
                            assert forall|j: int| 0 <= j < fields@.len() implies ((#[trigger] fields@[j]).0@, fields@[j].1.deep())
                                == fv.update(i as int, (name@, set_tree(fv[i as int].1, nv, k + 1, vv).0))[j] by {
                                if j != i {
                                    assert(fields@[j] == f0[j]);
                                }
                            }
                            lemma_fields_view_is(fields@, fv.update(i as int, (name@, set_tree(fv[i as int].1, nv, k + 1, vv).0)));
                        }
                        *tag = Tag::Compound(fields);
                        cnt
                    },
                    None => {
                        assert(nv[k + 1] == nodes@[k + 1].deep());
                        let mut c = preferred_parent_tag(&nodes[k + 1]);
                        let cnt = set_at(&mut c, nodes, k + 1, value);
                        fields.push((name.clone(), c));
                        proof {
                            lemma_fields_view_is(fields@, fv.push((name@, set_tree(preferred_parent(nv[k + 1]), nv, k + 1, vv).0)));
                        }
                        *tag = Tag::Compound(fields);
                        cnt
                    },
                }
            },
            other => {
                *tag = other;
                0
            },
        },
        PathNodeModel::IndexedElement(index) => match t {
            Tag::List(values) => {
                let mut values = values;
                proof {
                    lemma_list_view(values@);
                }
                let ghost l0 = values@;
                let ghost lv = list_view(l0);
                match list_index(values.len(), *index) {
                    Some(p) => {
                        let mut c = values.remove(p);
                        let cnt = set_at(&mut c, nodes, k + 1, value);
                        values.insert(p, c);
                        proof {
                            assert forall|j: int| 0 <= j < values@.len() implies (#[trigger] values@[j]).deep()
                                == lv.update(p as int, set_tree(lv[p as int], nv, k + 1, vv).0)[j] by {
                                if j != p {
                                    assert(values@[j] == l0[j]);
                                }
                            }
                            lemma_list_view_is(values@, lv.update(p as int, set_tree(lv[p as int], nv, k + 1, vv).0));
                        }
                        *tag = Tag::List(values);
                        cnt
                    },
                    None => {
                        *tag = Tag::List(values);
                        0
                    },
                }
            },
            other => {
                *tag = other;
                0
            },
        },
        PathNodeModel::AllElements => match t {
            Tag::List(values) => {
                proof {
                    lemma_list_view(values@);
                }
                let (values, cnt) = set_elements(values, None, nodes, k + 1, value);
                *tag = Tag::List(values);
                cnt
            },
            other => {
                *tag = other;
                0
            },
        },
        PathNodeModel::MatchElement(pattern) => match t {
            Tag::List(values) => {
                proof {
                    lemma_list_view(values@);
                }
                let (values, cnt) = set_elements(values, Some(pattern), nodes, k + 1, value);
                *tag = Tag::List(values);
                cnt
            },
            other => {
                *tag = other;
                0
            },
        },
        PathNodeModel::MatchObject { name, pattern } => match t {
            Tag::Compound(fields) => {
                let mut fields = fields;
                proof {
                    lemma_fields_view(fields@);
                }
                let ghost f0 = fields@;
                let ghost fv = fields_view(f0);
                match field_position(&fields, name.as_str()) {
                    Some(i) => {
                        proof {
                            lemma_first_index_from(fv, named(name@), 0);
                        }
                        if compare_nbt(pattern, &fields[i].1) {
                            let (n, mut c) = fields.remove(i);
                            let cnt = set_at(&mut c, nodes, k + 1, value);
                            fields.insert(i, (n, c));
                            proof {
                                assert forall|j: int| 0 <= j < fields@.len() implies ((#[trigger] fields@[j]).0@, fields@[j].1.deep())
                                    == fv.update(i as int, (name@, set_tree(fv[i as int].1, nv, k + 1, vv).0))[j] by {
                                    if j != i {
                                        assert(fields@[j] == f0[j]);
                                    }
                                }
                                lemma_fields_view_is(fields@, fv.update(i as int, (name@, set_tree(fv[i as int].1, nv, k + 1, vv).0)));
                            }
                            *tag = Tag::Compound(fields);
                            cnt
                        } else {
                            *tag = Tag::Compound(fields);
                            0
                        }
                    },
                    None => {
                        *tag = Tag::Compound(fields);
                        0
                    },
                }
            },
            other => {
                *tag = other;
                0
            },
        },
        PathNodeModel::MatchRootObject(pattern) => {
            let ok = compare_nbt(pattern, &t);
            *tag = t;
            if ok {
                set_at(tag, nodes, k + 1, value)
            } else {
                0
            }
        },
    }
}

pub open spec fn opt_deep(pattern: Option<&Tag>) -> Option<TagView> {
    match pattern {
        Some(p) => Some(p.deep()),
        None => None,
    }
}

/// Sets `value` from node `k` on below each element (each that matches
/// `pattern`, when there is one); the elements and the changes summed.
fn set_elements(values: Vec<Tag>, pattern: Option<&Tag>, nodes: &Vec<PathNodeModel>, k: usize, value: &Tag) -> (r: (Vec<Tag>, usize))
    requires
        1 <= k <= nodes@.len(),
    ensures
        list_view(r.0@) == set_each(list_view(values@), opt_deep(pattern), nodes_view(nodes@), k as int, value.deep(), values@.len() as int).0,
        r.1 == sat(set_each(list_view(values@), opt_deep(pattern), nodes_view(nodes@), k as int, value.deep(), values@.len() as int).1 as int),
    decreases nodes@.len() - k + 1, 0int,
{
    let ghost nv = nodes_view(nodes@);
    let ghost vv = value.deep();
    let ghost pv = opt_deep(pattern);
    proof {
        lemma_list_view(values@);
    }
    let ghost lv = list_view(values@);
    let mut values = values;
    let mut cnt: usize = 0;
    let mut i: usize = 0;
    proof {
        lemma_set_each_len(lv, pv, nv, k as int, vv, 0);
        assert(lv.subrange(0, lv.len() as int) =~= lv);
        lemma_list_view_is(values@, set_each(lv, pv, nv, k as int, vv, 0).0 + lv.subrange(0, lv.len() as int));
    }
    while i < values.len()
        invariant
            0 <= i <= values@.len(),
            values@.len() == lv.len(),
            1 <= k <= nodes@.len(),
            nv == nodes_view(nodes@),
            list_view(values@) == set_each(lv, pv, nv, k as int, vv, i as int).0 + lv.subrange(i as int, lv.len() as int),
            cnt == sat(set_each(lv, pv, nv, k as int, vv, i as int).1 as int),
        decreases values@.len() - i,
    {
        proof {
            lemma_set_each_len(lv, pv, nv, k as int, vv, i as int);
            lemma_list_view(values@);
            let ws0 = set_each(lv, pv, nv, k as int, vv, i as int).0;
            assert((ws0 + lv.subrange(i as int, lv.len() as int))[i as int] == lv.subrange(i as int, lv.len() as int)[0]);
            assert(values@[i as int].deep() == lv[i as int]);
        }
        let ghost before = values@;
        let ghost ws = set_each(lv, pv, nv, k as int, vv, i as int).0;
        let selected = match pattern {
            Some(p) => compare_nbt(p, &values[i]),
            None => true,
        };
        if selected {
            let mut c = values.remove(i);
            let d = set_at(&mut c, nodes, k, value);
            values.insert(i, c);
            proof {
                lemma_sat_add(set_each(lv, pv, nv, k as int, vv, i as int).1 as int, set_tree(lv[i as int], nv, k as int, vv).1 as int);
                let expected = ws.push(set_tree(lv[i as int], nv, k as int, vv).0) + lv.subrange(i + 1, lv.len() as int);
                lemma_list_view(before);
                assert forall|j: int| 0 <= j < values@.len() implies (#[trigger] values@[j]).deep() == expected[j] by {
                    if j < i {
                        assert(values@[j] == before[j]);
                        assert(list_view(before)[j] == (ws + lv.subrange(i as int, lv.len() as int))[j]);
                    } else if j > i {
                        assert(values@[j] == before[j]);
                        assert(list_view(before)[j] == (ws + lv.subrange(i as int, lv.len() as int))[j]);
                        assert(expected[j] == lv.subrange(i + 1, lv.len() as int)[j - i - 1]);
                    }
                }
                lemma_list_view_is(values@, expected);
            }
            cnt = sat_add(cnt, d);
        } else {
            proof {
                lemma_list_view(values@);
                assert(ws.push(lv[i as int]) + lv.subrange(i + 1, lv.len() as int) =~= ws + lv.subrange(i as int, lv.len() as int));
            }
        }
        i = i + 1;
    }
    proof {
        assert(lv.subrange(lv.len() as int, lv.len() as int) =~= Seq::<TagView>::empty());
        assert(set_each(lv, pv, nv, k as int, vv, lv.len() as int).0 + Seq::<TagView>::empty()
            =~= set_each(lv, pv, nv, k as int, vv, lv.len() as int).0);
    }
    (values, cnt)
}

impl NbtPathModel {
    /// Sets `to_add` at the path below `tag`, creating missing parents of
    /// child nodes; the number of tags changed. A value nested too deep for
    /// the path is refused and the tag is left as it was.
    pub fn set(&self, tag: &mut Tag, to_add: Tag) -> (r: Result<usize, NbtPathError>)
        ensures
            ({
                let (t, n) = set_tree(old(tag).deep(), self.nodes_deep(), 0, to_add.deep());
                if too_deep(to_add.deep(), self.nodes_deep().len() as int) {
                    r == Err::<usize, NbtPathError>(NbtPathError::DataTooDeep) && final(tag).deep() == old(tag).deep()
                } else {
                    r == Ok::<usize, NbtPathError>(sat(n as int) as usize) && final(tag).deep() == t
                }
            }),
    {
        if is_too_deep(&to_add, self.nodes.len()) {
            return Err(NbtPathError::DataTooDeep);
        }
        let n = set_at(tag, &self.nodes, 0, &to_add);
        Ok(n)
    }
}

pub open spec fn not_matching(pattern: TagView) -> spec_fn(TagView) -> bool {
    |t: TagView| !matches_pattern(pattern, t)
}

/// Removing what the last node selects under `parent`, and how many tags went.
pub open spec fn remove_last_spec(parent: TagView, node: NodeView) -> (TagView, nat) {
    match node {
        NodeView::CompoundChild(name) => match parent {
            TagView::Compound(f) => {
                let i = first_index(f, named(name));
                if i >= 0 { (TagView::Compound(f.remove(i)), 1nat) } else { (parent, 0nat) }
            },
            _ => (parent, 0nat),
        },
        NodeView::IndexedElement(index) => match parent {
            TagView::List(vs) => match list_position(vs.len() as int, index as int) {
                Some(p) => (TagView::List(vs.remove(p)), 1nat),
                None => (parent, 0nat),
            },
            _ => (parent, 0nat),
        },
        NodeView::AllElements => match parent {
            TagView::List(vs) => (TagView::List(seq![]), vs.len()),
            _ => (parent, 0nat),
        },
        NodeView::MatchElement(pattern) => match parent {
            TagView::List(vs) => (TagView::List(vs.filter(not_matching(pattern))), vs.filter(matching(pattern)).len()),
            _ => (parent, 0nat),
        },
        NodeView::MatchObject(name, pattern) => match parent {
            TagView::Compound(f) => {
                let i = first_index(f, named(name));
                if i >= 0 && matches_pattern(pattern, f[i].1) { (TagView::Compound(f.remove(i)), 1nat) } else { (parent, 0nat) }
            },
            _ => (parent, 0nat),
        },
        NodeView::MatchRootObject(_) => (parent, 0nat),
    }
}

/// Removing at the nodes from `k` on: only child nodes lead further down.
pub open spec fn remove_tree(t: TagView, nodes: Seq<NodeView>, k: int) -> (TagView, nat)
    decreases nodes.len() - k,
{
    if k < 0 || k >= nodes.len() {
        (t, 0nat)
    } else if k + 1 == nodes.len() {
        remove_last_spec(t, nodes[k])
    } else {
        match (nodes[k], t) {
            (NodeView::CompoundChild(name), TagView::Compound(f)) => {
                let i = first_index(f, named(name));
                if i >= 0 {
                    let (c, n) = remove_tree(f[i].1, nodes, k + 1);
                    (TagView::Compound(f.update(i, (name, c))), n)
                } else {
                    (t, 0nat)
                }
            },
            _ => (t, 0nat),
        }
    }
}

fn remove_field(fields: &mut Vec<(String, Tag)>, i: usize)
    requires
        i < old(fields)@.len(),
    ensures
        fields_view(final(fields)@) == fields_view(old(fields)@).remove(i as int),
{
    proof {
        lemma_fields_view(fields@);
    }
    let ghost f0 = fields@;
    fields.remove(i);
    proof {
        lemma_fields_view_is(fields@, fields_view(f0).remove(i as int));
    }
}

fn remove_last(parent: &mut Tag, node: &PathNodeModel) -> (r: usize)
    ensures
        final(parent).deep() == remove_last_spec(old(parent).deep(), node.deep()).0,
        r == remove_last_spec(old(parent).deep(), node.deep()).1,
{
    let t = take(parent);
    match node {
        PathNodeModel::CompoundChild(name) => match t {
            Tag::Compound(fields) => {
                let mut fields = fields;
                match field_position(&fields, name.as_str()) {
                    Some(i) => {
                        remove_field(&mut fields, i);
                        *parent = Tag::Compound(fields);
                        1
                    },
                    None => {
                        *parent = Tag::Compound(fields);
                        0
                    },
                }
            },
            other => {
                *parent = other;
                0
            },
        },
        PathNodeModel::IndexedElement(index) => match t {
            Tag::List(values) => {
                let mut values = values;
                proof {
                    lemma_list_view(values@);
                }
                let ghost l0 = values@;
                match list_index(values.len(), *index) {
                    Some(p) => {
                        values.remove(p);
                        proof {
                            lemma_list_view_is(values@, list_view(l0).remove(p as int));
                        }
                        *parent = Tag::List(values);
                        1
                    },
                    None => {
                        *parent = Tag::List(values);
                        0
                    },
                }
            },
            other => {
                *parent = other;
                0
            },
        },
        PathNodeModel::AllElements => match t {
            Tag::List(values) => {
                proof {
                    lemma_list_view(values@);
                    lemma_list_view(Seq::<Tag>::empty());
                    assert(list_view(Seq::<Tag>::empty()) =~= Seq::<TagView>::empty());
                }
                let size = values.len();
                *parent = Tag::List(Vec::new());
                size
            },
            other => {
                *parent = other;
                0
            },
        },
        PathNodeModel::MatchElement(pattern) => match t {
            Tag::List(values) => {
                proof {
                    lemma_list_view(values@);
                }
                let ghost lv = list_view(values@);
                let ghost pat = pattern.deep();
                let mut kept: Vec<Tag> = Vec::new();
                let mut gone: usize = 0;
                let mut i: usize = 0;
                while i < values.len()
                    invariant
                        0 <= i <= values@.len(),
                        lv == list_view(values@),
                        lv.len() == values@.len(),
                        list_view(kept@) == lv.subrange(0, i as int).filter(not_matching(pat)),
                        gone == lv.subrange(0, i as int).filter(matching(pat)).len(),
                        gone <= i,
                    decreases values@.len() - i,
                {
                    proof {
                        reveal_with_fuel(Seq::<TagView>::filter, 1);
                        assert(lv.subrange(0, i + 1).drop_last() =~= lv.subrange(0, i as int));
                    }
                    if compare_nbt(pattern, &values[i]) {
                        gone = gone + 1;
                    } else {
                        let ghost before = kept@;
                        kept.push(values[i].copy());
                        proof {
                            lemma_list_view(kept@);
                            lemma_list_view(before);
                            lemma_list_view_is(kept@, list_view(before).push(lv[i as int]));
                        }
                    }
                    i = i + 1;
                }
                assert(lv.subrange(0, values@.len() as int) =~= lv);
                *parent = Tag::List(kept);
                gone
            },
            other => {
                *parent = other;
                0
            },
        },
        PathNodeModel::MatchObject { name, pattern } => match t {
            Tag::Compound(fields) => {
                let mut fields = fields;
                proof {
                    lemma_fields_view(fields@);
                }
                match field_position(&fields, name.as_str()) {
                    Some(i) => {
                        proof {
                            lemma_first_index_from(fields_view(fields@), named(name@), 0);
                        }
                        if compare_nbt(pattern, &fields[i].1) {
                            remove_field(&mut fields, i);
                            *parent = Tag::Compound(fields);
                            1
                        } else {
                            *parent = Tag::Compound(fields);
                            0
                        }
                    },
                    None => {
                        *parent = Tag::Compound(fields);
                        0
                    },
                }
            },
            other => {
                *parent = other;
                0
            },
        },
        PathNodeModel::MatchRootObject(_) => {
            *parent = t;
            0
        },
    }
}

fn remove_at(tag: &mut Tag, nodes: &Vec<PathNodeModel>, k: usize) -> (r: usize)
    requires
        k <= nodes@.len(),
    ensures
        final(tag).deep() == remove_tree(old(tag).deep(), nodes_view(nodes@), k as int).0,
        r == remove_tree(old(tag).deep(), nodes_view(nodes@), k as int).1,
    decreases nodes@.len() - k,
{
    let ghost nv = nodes_view(nodes@);
    if k >= nodes.len() {
        return 0;
    }
    assert(nv[k as int] == nodes@[k as int].deep());
    if k + 1 == nodes.len() {
        return remove_last(tag, &nodes[k]);
    }
    let t = take(tag);
    match (&nodes[k], t) {
        (PathNodeModel::CompoundChild(name), Tag::Compound(fields)) => {
            let mut fields = fields;
            proof {
                lemma_fields_view(fields@);
            }
            let ghost f0 = fields@;
            let ghost fv = fields_view(f0);
            match field_position(&fields, name.as_str()) {
                Some(i) => {
                    proof {
                        lemma_first_index_from(fv, named(name@), 0);
                    }
                    let (n, mut c) = fields.remove(i);
                    let cnt = remove_at(&mut c, nodes, k + 1);
                    fields.insert(i, (n, c));
                    proof {
                        assert forall|j: int| 0 <= j < fields@.len() implies ((#[trigger] fields@[j]).0@, fields@[j].1.deep())
                            == fv.update(i as int, (name@, remove_tree(fv[i as int].1, nv, k + 1).0))[j] by {
                            if j != i {
                                assert(fields@[j] == f0[j]);
                            }
                        }
                        lemma_fields_view_is(fields@, fv.update(i as int, (name@, remove_tree(fv[i as int].1, nv, k + 1).0)));
                    }
                    *tag = Tag::Compound(fields);
                    cnt
                },
                None => {
                    *tag = Tag::Compound(fields);
                    0
                },
            }
        },
        (_, other) => {
            *tag = other;
            0
        },
    }
}

impl NbtPathModel {
    /// Removes what the path selects below `tag`; the number of tags removed.
    pub fn remove(&self, tag: &mut Tag) -> (r: usize)
        ensures
            final(tag).deep() == remove_tree(old(tag).deep(), self.nodes_deep(), 0).0,
            r == remove_tree(old(tag).deep(), self.nodes_deep(), 0).1,
    {
        remove_at(tag, &self.nodes, 0)
    }
}

/// Fields named `name` whose value matches `pattern`.
pub open spec fn named_matching(name: Seq<char>, pattern: TagView) -> spec_fn((Seq<char>, TagView)) -> bool {
    |f: (Seq<char>, TagView)| f.0 == name && matches_pattern(pattern, f.1)
}

/// At the last node: the tags it selects under `parent`, after creating what
/// it names when missing (a child as `fresh`, an element or object as its pattern).
pub open spec fn goc_last(parent: TagView, node: NodeView, fresh: TagView) -> (TagView, Seq<TagView>) {
    match node {
        NodeView::CompoundChild(name) => match parent {
            TagView::Compound(f) => {
                let i = first_index(f, named(name));
                if i >= 0 { (parent, seq![f[i].1]) } else { (TagView::Compound(f.push((name, fresh))), seq![fresh]) }
            },
            _ => (parent, seq![]),
        },
        NodeView::AllElements => match parent {
            TagView::List(vs) => if vs.len() == 0 { (TagView::List(seq![fresh]), seq![fresh]) } else { (parent, vs) },
            _ => (parent, seq![]),
        },
        NodeView::MatchElement(pattern) => match parent {
            TagView::List(vs) => {
                let m = vs.filter(matching(pattern));
                if m.len() == 0 { (TagView::List(vs.push(pattern)), seq![pattern]) } else { (parent, m) }
            },
            _ => (parent, seq![]),
        },
        NodeView::MatchObject(name, pattern) => match parent {
            TagView::Compound(f) => {
                let i = first_index(f, named(name));
                if i >= 0 {
                    if matches_pattern(pattern, f[i].1) { (parent, seq![f[i].1]) } else { (parent, seq![]) }
                } else {
                    (TagView::Compound(f.push((name, pattern))), seq![pattern])
                }
            },
            _ => (parent, seq![]),
        },
        _ => (parent, node_get(node, parent)),
    }
}

/// The tags that the nodes from `k` on select below `t` after creating the
/// missing parents and last tags; and the tree after the creation.
pub open spec fn goc_tree(t: TagView, nodes: Seq<NodeView>, k: int, fresh: TagView) -> (TagView, Seq<TagView>)
    decreases nodes.len() - k, 1int, 0int,
{
    if k < 0 || k >= nodes.len() {
        (t, seq![t])
    } else if k + 1 == nodes.len() {
        goc_last(t, nodes[k], fresh)
    } else {
        match nodes[k] {
            NodeView::CompoundChild(name) => match t {
                TagView::Compound(f) => {
                    let i = first_index(f, named(name));
                    if i >= 0 {
                        let (c, out) = goc_tree(f[i].1, nodes, k + 1, fresh);
                        (TagView::Compound(f.update(i, (name, c))), out)
                    } else {
                        let (c, out) = goc_tree(preferred_parent(nodes[k + 1]), nodes, k + 1, fresh);
                        (TagView::Compound(f.push((name, c))), out)
                    }
                },
                _ => (t, seq![]),
            },
            NodeView::IndexedElement(index) => match t {
                TagView::List(vs) => match list_position(vs.len() as int, index as int) {
                    Some(p) => {
                        let (c, out) = goc_tree(vs[p], nodes, k + 1, fresh);
                        (TagView::List(vs.update(p, c)), out)
                    },
                    None => (t, seq![]),
                },
                _ => (t, seq![]),
            },
            NodeView::AllElements => match t {
                TagView::List(vs) => {
                    let vs2 = if vs.len() == 0 { seq![preferred_parent(nodes[k + 1])] } else { vs };
                    let (ws, out) = goc_each(vs2, None, nodes, k + 1, fresh, vs2.len() as int);
                    (TagView::List(ws), out)
                },
                _ => (t, seq![]),
            },
            NodeView::MatchElement(pattern) => match t {
                TagView::List(vs) => {
                    let vs2 = if vs.filter(matching(pattern)).len() == 0 { vs.push(pattern) } else { vs };
                    let (ws, out) = goc_each(vs2, Some(pattern), nodes, k + 1, fresh, vs2.len() as int);
                    (TagView::List(ws), out)
                },
                _ => (t, seq![]),
            },
            NodeView::MatchObject(name, pattern) => match t {
                TagView::Compound(f) => {
                    let f2 = if first_index(f, named(name)) < 0 { f.push((name, pattern)) } else { f };
                    let i = first_index(f2, named_matching(name, pattern));
                    if i >= 0 {
                        let (c, out) = goc_tree(f2[i].1, nodes, k + 1, fresh);
                        (TagView::Compound(f2.update(i, (name, c))), out)
                    } else {
                        (TagView::Compound(f2), seq![])
                    }
                },
                _ => (t, seq![]),
            },
            NodeView::MatchRootObject(pattern) => if matches_pattern(pattern, t) {
                goc_tree(t, nodes, k + 1, fresh)
            } else {
                (t, seq![])
            },
        }
    }
}

/// The first `n` elements after creation below each of them (each that
/// matches `pattern`, when there is one), and the tags selected, in order.
pub open spec fn goc_each(vs: Seq<TagView>, pattern: Option<TagView>, nodes: Seq<NodeView>, k: int, fresh: TagView, n: int) -> (Seq<TagView>, Seq<TagView>)
    decreases nodes.len() - k + 1, 0int, n,
{
    if n <= 0 || n > vs.len() || k < 1 || k > nodes.len() {
        (seq![], seq![])
    } else {
        let (ws, acc) = goc_each(vs, pattern, nodes, k, fresh, n - 1);
        let x = vs[n - 1];
        if pattern matches Some(p) && !matches_pattern(p, x) {
            (ws.push(x), acc)
        } else {
            let (y, out) = goc_tree(x, nodes, k, fresh);
            (ws.push(y), acc + out)
        }
    }
}

proof fn lemma_goc_each_len(vs: Seq<TagView>, pattern: Option<TagView>, nodes: Seq<NodeView>, k: int, fresh: TagView, n: int)
    requires
        0 <= n <= vs.len(),
        1 <= k <= nodes.len(),
    ensures
        goc_each(vs, pattern, nodes, k, fresh, n).0.len() == n,
    decreases n,
{
    if n > 0 {
        lemma_goc_each_len(vs, pattern, nodes, k, fresh, n - 1);
    }
}

/// The first field named `name` whose value matches `pattern`.
fn field_position_matching(fields: &Vec<(String, Tag)>, name: &str, pattern: &Tag) -> (r: Option<usize>)
    ensures
        ({
            let i = first_index(fields_view(fields@), named_matching(name@, pattern.deep()));
            match r {
                Some(p) => i == p && p < fields@.len(),
                None => i < 0,
            }
        }),
{
    proof {
        lemma_fields_view(fields@);
    }
    let ghost fv = fields_view(fields@);
    let ghost p = named_matching(name@, pattern.deep());
    let mut i: usize = 0;
    while i < fields.len()
        invariant
            0 <= i <= fields@.len(),
            fv == fields_view(fields@),
            fv.len() == fields@.len(),
            first_index_from(fv, p, i as int) == first_index(fv, p),
        decreases fields@.len() - i,
    {
        if str_eq(fields[i].0.as_str(), name) && compare_nbt(pattern, &fields[i].1) {
            return Some(i);
        }
        i = i + 1;
    }
    None
}

fn goc_last_exec(parent: &mut Tag, node: &PathNodeModel, fresh: &Tag) -> (r: Vec<Tag>)
    ensures
        final(parent).deep() == goc_last(old(parent).deep(), node.deep(), fresh.deep()).0,
        list_view(r@) == goc_last(old(parent).deep(), node.deep(), fresh.deep()).1,
{
    let ghost fv0 = fresh.deep();
    let t = take(parent);
    let mut out: Vec<Tag> = Vec::new();
    match node {
        PathNodeModel::CompoundChild(name) => match t {
            Tag::Compound(fields) => {
                let mut fields = fields;
                proof {
                    lemma_fields_view(fields@);
                }
                let ghost f0 = fields@;
                match field_position(&fields, name.as_str()) {
                    Some(i) => {
                        out.push(fields[i].1.copy());
                    },
                    None => {
                        fields.push((name.clone(), fresh.copy()));
                        proof {
                            lemma_fields_view_is(fields@, fields_view(f0).push((name@, fv0)));
                        }
                        out.push(fresh.copy());
                    },
                }
                *parent = Tag::Compound(fields);
            },
            other => {
                *parent = other;
            },
        },
        PathNodeModel::AllElements => match t {
            Tag::List(values) => {
                let mut values = values;
                proof {
                    lemma_list_view(values@);
                }
                if values.len() == 0 {
                    values.push(fresh.copy());
                    proof {
                        lemma_list_view_is(values@, seq![fv0]);
                    }
                }
                out = copy_list(&values);
                *parent = Tag::List(values);
            },
            other => {
                *parent = other;
            },
        },
        PathNodeModel::MatchElement(pattern) => match t {
            Tag::List(values) => {
                let mut values = values;
                proof {
                    lemma_list_view(values@);
                }
                let ghost l0 = values@;
                let matches = matching_elements(&values, pattern);
                proof {
                    lemma_list_view(matches@);
                }
                if matches.len() == 0 {
                    values.push(pattern.copy());
                    proof {
                        lemma_list_view_is(values@, list_view(l0).push(pattern.deep()));
                    }
                    out.push(pattern.copy());
                } else {
                    out = matches;
                }
                *parent = Tag::List(values);
            },
            other => {
                *parent = other;
            },
        },
        PathNodeModel::MatchObject { name, pattern } => match t {
            Tag::Compound(fields) => {
                let mut fields = fields;
                proof {
                    lemma_fields_view(fields@);
                }
                let ghost f0 = fields@;
                match field_position(&fields, name.as_str()) {
                    Some(i) => {
                        if compare_nbt(pattern, &fields[i].1) {
                            out.push(fields[i].1.copy());
                        }
                    },
                    None => {
                        fields.push((name.clone(), pattern.copy()));
                        proof {
                            lemma_fields_view_is(fields@, fields_view(f0).push((name@, pattern.deep())));
                        }
                        out.push(pattern.copy());
                    },
                }
                *parent = Tag::Compound(fields);
            },
            other => {
                *parent = other;
            },
        },
        _ => {
            out = node.get(&t);
            *parent = t;
        },
    }
    proof {
        lemma_list_view(out@);
        assert(list_view(out@) =~= goc_last(old(parent).deep(), node.deep(), fv0).1);
    }
    out
}

fn goc_at(tag: &mut Tag, nodes: &Vec<PathNodeModel>, k: usize, fresh: &Tag) -> (r: Vec<Tag>)
    requires
        k <= nodes@.len(),
    ensures
        final(tag).deep() == goc_tree(old(tag).deep(), nodes_view(nodes@), k as int, fresh.deep()).0,
        list_view(r@) == goc_tree(old(tag).deep(), nodes_view(nodes@), k as int, fresh.deep()).1,
    decreases nodes@.len() - k,
{
    let ghost nv = nodes_view(nodes@);
    let ghost fv0 = fresh.deep();
    if k >= nodes.len() {
        let mut out: Vec<Tag> = Vec::new();
        out.push(tag.copy());
        proof {
            lemma_list_view_is(out@, seq![tag.deep()]);
        }
        return out;
    }
    assert(nv[k as int] == nodes@[k as int].deep());
    if k + 1 == nodes.len() {
        return goc_last_exec(tag, &nodes[k], fresh);
    }
    assert(nv[k + 1] == nodes@[k + 1].deep());
    let t = take(tag);
    let empty: Vec<Tag> = Vec::new();
    proof {
        lemma_list_view(empty@);
        assert(list_view(empty@) =~= Seq::<TagView>::empty());
    }
    match &nodes[k] {
        PathNodeModel::CompoundChild(name) => match t {
            Tag::Compound(fields) => {
                let mut fields = fields;
                proof {
                    lemma_fields_view(fields@);
                }
                let ghost f0 = fields@;
                let ghost fv = fields_view(f0);
                match field_position(&fields, name.as_str()) {
                    Some(i) => {
                        proof {
                            lemma_first_index_from(fv, named(name@), 0);
                        }
                        let (n, mut c) = fields.remove(i);
                        let out = goc_at(&mut c, nodes, k + 1, fresh);
                        fields.insert(i, (n, c));
                        proof {
                            assert forall|j: int| 0 <= j < fields@.len() implies ((#[trigger] fields@[j]).0@, fields@[j].1.deep())
                                == fv.update(i as int, (name@, goc_tree(fv[i as int].1, nv, k + 1, fv0).0))[j] by {
                                if j != i {
                                    assert(fields@[j] == f0[j]);
                                }
                            }
                            lemma_fields_view_is(fields@, fv.update(i as int, (name@, goc_tree(fv[i as int].1, nv, k + 1, fv0).0)));
                        }
                        *tag = Tag::Compound(fields);
                        out
                    },
                    None => {
                        let mut c = preferred_parent_tag(&nodes[k + 1]);
                        let out = goc_at(&mut c, nodes, k + 1, fresh);
                        fields.push((name.clone(), c));
                        proof {
                            lemma_fields_view_is(fields@, fv.push((name@, goc_tree(preferred_parent(nv[k + 1]), nv, k + 1, fv0).0)));
                        }
                        *tag = Tag::Compound(fields);
                        out
                    },
                }
            },
            other => {
                *tag = other;
                empty
            },
        },
        PathNodeModel::IndexedElement(index) => match t {
            Tag::List(values) => {
                let mut values = values;
                proof {
                    lemma_list_view(values@);
                }
                let ghost l0 = values@;
                let ghost lv = list_view(l0);
                match list_index(values.len(), *index) {
                    Some(p) => {
                        let mut c = values.remove(p);
                        let out = goc_at(&mut c, nodes, k + 1, fresh);
                        values.insert(p, c);
                        proof {
                            assert forall|j: int| 0 <= j < values@.len() implies (#[trigger] values@[j]).deep()
                                == lv.update(p as int, goc_tree(lv[p as int], nv, k + 1, fv0).0)[j] by {
                                if j != p {
                                    assert(values@[j] == l0[j]);
                                }
                            }
                            lemma_list_view_is(values@, lv.update(p as int, goc_tree(lv[p as int], nv, k + 1, fv0).0));
                        }
                        *tag = Tag::List(values);
                        out
                    },
                    None => {
                        *tag = Tag::List(values);
                        empty
                    },
                }
            },
            other => {
                *tag = other;
                empty
            },
        },
        PathNodeModel::AllElements => match t {
            Tag::List(values) => {
                let mut values = values;
                proof {
                    lemma_list_view(values@);
                }
                if values.len() == 0 {
                    values.push(preferred_parent_tag(&nodes[k + 1]));
                    proof {
                        lemma_list_view_is(values@, seq![preferred_parent(nv[k + 1])]);
                    }
                }
                proof {
                    lemma_list_view(values@);
                }
                let (values, out) = goc_elements(values, None, nodes, k + 1, fresh);
                *tag = Tag::List(values);
                out
            },
            other => {
                *tag = other;
                empty
            },
        },
        PathNodeModel::MatchElement(pattern) => match t {
            Tag::List(values) => {
                let mut values = values;
                proof {
                    lemma_list_view(values@);
                }
                let ghost l0 = values@;
                let matches = matching_elements(&values, pattern);
                proof {
                    lemma_list_view(matches@);
                }
                if matches.len() == 0 {
                    values.push(pattern.copy());
                    proof {
                        lemma_list_view_is(values@, list_view(l0).push(pattern.deep()));
                    }
                }
                proof {
                    lemma_list_view(values@);
                }
                let (values, out) = goc_elements(values, Some(pattern), nodes, k + 1, fresh);
                *tag = Tag::List(values);
                out
            },
            other => {
                *tag = other;
                empty
            },
        },
        PathNodeModel::MatchObject { name, pattern } => match t {
            Tag::Compound(fields) => {
                let mut fields = fields;
                proof {
                    lemma_fields_view(fields@);
                }
                let ghost f0 = fields@;
                if field_position(&fields, name.as_str()).is_none() {
                    fields.push((name.clone(), pattern.copy()));
                    proof {
                        lemma_fields_view_is(fields@, fields_view(f0).push((name@, pattern.deep())));
                    }
                }
                proof {
                    lemma_fields_view(fields@);
                }
                let ghost f1 = fields@;
                let ghost fv = fields_view(f1);
                match field_position_matching(&fields, name.as_str(), pattern) {
                    Some(i) => {
                        proof {
                            lemma_first_index_from(fv, named_matching(name@, pattern.deep()), 0);
                        }
                        let (n, mut c) = fields.remove(i);
                        let out = goc_at(&mut c, nodes, k + 1, fresh);
                        fields.insert(i, (n, c));
                        proof {
                            assert forall|j: int| 0 <= j < fields@.len() implies ((#[trigger] fields@[j]).0@, fields@[j].1.deep())
                                == fv.update(i as int, (name@, goc_tree(fv[i as int].1, nv, k + 1, fv0).0))[j] by {
                                if j != i {
                                    assert(fields@[j] == f1[j]);
                                }
                            }
                            lemma_fields_view_is(fields@, fv.update(i as int, (name@, goc_tree(fv[i as int].1, nv, k + 1, fv0).0)));
                        }
                        *tag = Tag::Compound(fields);
                        out
                    },
                    None => {
                        *tag = Tag::Compound(fields);
                        empty
                    },
                }
            },
            other => {
                *tag = other;
                empty
            },
        },
        PathNodeModel::MatchRootObject(pattern) => {
            let ok = compare_nbt(pattern, &t);
            *tag = t;
            if ok {
                goc_at(tag, nodes, k + 1, fresh)
            } else {
                empty
            }
        },
    }
}

/// Creation below each element (each that matches `pattern`, when there is
/// one); the elements and the tags selected, in order.
fn goc_elements(values: Vec<Tag>, pattern: Option<&Tag>, nodes: &Vec<PathNodeModel>, k: usize, fresh: &Tag) -> (r: (Vec<Tag>, Vec<Tag>))
    requires
        1 <= k <= nodes@.len(),
    ensures
        list_view(r.0@) == goc_each(list_view(values@), opt_deep(pattern), nodes_view(nodes@), k as int, fresh.deep(), values@.len() as int).0,
        list_view(r.1@) == goc_each(list_view(values@), opt_deep(pattern), nodes_view(nodes@), k as int, fresh.deep(), values@.len() as int).1,
    decreases nodes@.len() - k + 1, 0int,
{
    let ghost nv = nodes_view(nodes@);
    let ghost fv0 = fresh.deep();
    let ghost pv = opt_deep(pattern);
    proof {
        lemma_list_view(values@);
    }
    let ghost lv = list_view(values@);
    let mut values = values;
    let mut out: Vec<Tag> = Vec::new();
    let mut i: usize = 0;
    proof {
        lemma_goc_each_len(lv, pv, nv, k as int, fv0, 0);
        assert(lv.subrange(0, lv.len() as int) =~= lv);
        lemma_list_view_is(values@, goc_each(lv, pv, nv, k as int, fv0, 0).0 + lv.subrange(0, lv.len() as int));
        lemma_list_view(out@);
        assert(list_view(out@) =~= goc_each(lv, pv, nv, k as int, fv0, 0).1);
    }
    while i < values.len()
        invariant
            0 <= i <= values@.len(),
            values@.len() == lv.len(),
            1 <= k <= nodes@.len(),
            nv == nodes_view(nodes@),
            list_view(values@) == goc_each(lv, pv, nv, k as int, fv0, i as int).0 + lv.subrange(i as int, lv.len() as int),
            list_view(out@) == goc_each(lv, pv, nv, k as int, fv0, i as int).1,
        decreases values@.len() - i,
    {
        proof {
            lemma_goc_each_len(lv, pv, nv, k as int, fv0, i as int);
            lemma_list_view(values@);
            let ws0 = goc_each(lv, pv, nv, k as int, fv0, i as int).0;
            assert((ws0 + lv.subrange(i as int, lv.len() as int))[i as int] == lv.subrange(i as int, lv.len() as int)[0]);
            assert(values@[i as int].deep() == lv[i as int]);
        }
        let ghost before = values@;
        let ghost ws = goc_each(lv, pv, nv, k as int, fv0, i as int).0;
        let selected = match pattern {
            Some(p) => compare_nbt(p, &values[i]),
            None => true,
        };
        if selected {
            let mut c = values.remove(i);
            let more = goc_at(&mut c, nodes, k, fresh);
            values.insert(i, c);
            proof {
                lemma_list_view(before);
                let expected = ws.push(goc_tree(lv[i as int], nv, k as int, fv0).0) + lv.subrange(i + 1, lv.len() as int);
                assert forall|j: int| 0 <= j < values@.len() implies (#[trigger] values@[j]).deep() == expected[j] by {
                    if j < i {
                        assert(values@[j] == before[j]);
                        assert(list_view(before)[j] == (ws + lv.subrange(i as int, lv.len() as int))[j]);
                    } else if j > i {
                        assert(values@[j] == before[j]);
                        assert(list_view(before)[j] == (ws + lv.subrange(i as int, lv.len() as int))[j]);
                        assert(expected[j] == lv.subrange(i + 1, lv.len() as int)[j - i - 1]);
                    }
                }
                lemma_list_view_is(values@, expected);
                lemma_list_view_concat(out@, more@);
            }
            let mut more = more;
            out.append(&mut more);
        } else {
            proof {
                assert(ws.push(lv[i as int]) + lv.subrange(i + 1, lv.len() as int) =~= ws + lv.subrange(i as int, lv.len() as int));
            }
        }
        i = i + 1;
    }
    proof {
        assert(lv.subrange(lv.len() as int, lv.len() as int) =~= Seq::<TagView>::empty());
        assert(goc_each(lv, pv, nv, k as int, fv0, lv.len() as int).0 + Seq::<TagView>::empty()
            =~= goc_each(lv, pv, nv, k as int, fv0, lv.len() as int).0);
    }
    (values, out)
}

/// Inserting `vals` into a list at `index` (negative counts from the end,
/// `-1` meaning after the last element); whether anything was inserted.
pub open spec fn insert_into_list_spec(t: TagView, index: int, vals: Seq<TagView>) -> Result<(TagView, nat), NbtPathError> {
    match t {
        TagView::List(vs) => {
            let actual = if index < 0 { vs.len() + index + 1 } else { index };
            if actual < 0 || actual > vs.len() {
                Err(NbtPathError::InvalidIndex(actual as isize))
            } else {
                Ok((
                    TagView::List(vs.subrange(0, actual) + vals + vs.subrange(actual, vs.len() as int)),
                    if vals.len() > 0 { 1nat } else { 0nat },
                ))
            }
        },
        _ => Err(NbtPathError::ExpectedList),
    }
}

/// Inserting at the nodes from `k` on: only child nodes lead down, and the
/// tags the last node selects must all be lists.
pub open spec fn insert_tree(t: TagView, nodes: Seq<NodeView>, k: int, index: int, vals: Seq<TagView>) -> Result<(TagView, nat), NbtPathError>
    decreases nodes.len() - k,
{
    if k < 0 || k >= nodes.len() {
        insert_into_list_spec(t, index, vals)
    } else if k + 1 == nodes.len() && exists|j: int| 0 <= j < node_get(nodes[k], t).len()
        && !(#[trigger] node_get(nodes[k], t)[j] is List) {
        Err(NbtPathError::ExpectedList)
    } else {
        match (nodes[k], t) {
            (NodeView::CompoundChild(name), TagView::Compound(f)) => {
                let i = first_index(f, named(name));
                if i < 0 {
                    Ok((t, 0nat))
                } else {
                    let below = if k + 1 == nodes.len() {
                        insert_into_list_spec(f[i].1, index, vals)
                    } else {
                        insert_tree(f[i].1, nodes, k + 1, index, vals)
                    };
                    match below {
                        Ok((c, n)) => Ok((TagView::Compound(f.update(i, (name, c))), n)),
                        Err(e) => Err(e),
                    }
                }
            },
            _ => Ok((t, 0nat)),
        }
    }
}

fn insert_into_list(tag: &mut Tag, index: isize, values: &[Tag]) -> (r: Result<usize, NbtPathError>)
    ensures
        match insert_into_list_spec(old(tag).deep(), index as int, list_view(values@)) {
            Ok((t, n)) => r == Ok::<usize, NbtPathError>(n as usize) && final(tag).deep() == t,
            Err(e) => r == Err::<usize, NbtPathError>(e) && final(tag).deep() == old(tag).deep(),
        },
{
    proof {
        lemma_list_view(values@);
    }
    let t = take(tag);
    match t {
        Tag::List(target) => {
            let mut target = target;
            proof {
                lemma_list_view(target@);
            }
            let ghost l0 = target@;
            let ghost lv = list_view(l0);
            let len = target.len();
            let actual: i128 = if index < 0 { len as i128 + index as i128 + 1 } else { index as i128 };
            if actual < 0 || actual > len as i128 {
                *tag = Tag::List(target);
                return Err(NbtPathError::InvalidIndex(actual as isize));
            }
            let start = actual as usize;
            let mut at = start;
            let mut i: usize = 0;
            while i < values.len()
                invariant
                    0 <= i <= values@.len(),
                    at == start + i,
                    start <= l0.len(),
                    target@.len() == l0.len() + i,
                    forall|j: int| 0 <= j < start ==> #[trigger] target@[j] == l0[j],
                    forall|j: int| 0 <= j < i ==> (#[trigger] target@[start + j]).deep() == values@[j].deep(),
                    forall|j: int| start + i <= j < target@.len() ==> #[trigger] target@[j] == l0[j - i],
                decreases values@.len() - i,
            {
                let ghost before = target@;
                target.insert(at, values[i].copy());
                proof {
                    assert forall|j: int| start + i + 1 <= j < target@.len() implies #[trigger] target@[j] == l0[j - (i + 1)] by {
                        assert(target@[j] == before[j - 1]);
                    }
                    assert forall|j: int| 0 <= j < i + 1 implies (#[trigger] target@[start + j]).deep() == values@[j].deep() by {
                        if j < i {
                            assert(target@[start + j] == before[start + j]);
                        }
                    }
                    assert forall|j: int| 0 <= j < start implies #[trigger] target@[j] == l0[j] by {
                        assert(target@[j] == before[j]);
                    }
                }
                let now = target.len();
                assert(at < now);
                at = at + 1;
                i = i + 1;
            }
            proof {
                let vv = list_view(values@);
                let expected = lv.subrange(0, start as int) + vv + lv.subrange(start as int, lv.len() as int);
                assert forall|j: int| 0 <= j < target@.len() implies (#[trigger] target@[j]).deep() == expected[j] by {
                    if j < start {
                    } else if j < start + values@.len() {
                        assert(target@[start + (j - start)] == target@[j]);
                    } else {
                    }
                }
                lemma_list_view_is(target@, expected);
            }
            *tag = Tag::List(target);
            Ok(if values.len() > 0 { 1 } else { 0 })
        },
        other => {
            *tag = other;
            Err(NbtPathError::ExpectedList)
        },
    }
}

fn all_lists(tags: &Vec<Tag>) -> (r: bool)
    ensures
        r == !(exists|j: int| 0 <= j < list_view(tags@).len() && !(#[trigger] list_view(tags@)[j] is List)),
{
    proof {
        lemma_list_view(tags@);
    }
    let mut i: usize = 0;
    while i < tags.len()
        invariant
            0 <= i <= tags@.len(),
            list_view(tags@).len() == tags@.len(),
            forall|j: int| 0 <= j < i ==> (#[trigger] list_view(tags@)[j]) is List,
        decreases tags@.len() - i,
    {
        match &tags[i] {
            Tag::List(_) => {},
            _ => {
                assert(!(list_view(tags@)[i as int] is List));
                return false;
            },
        }
        i = i + 1;
    }
    true
}

fn insert_at(tag: &mut Tag, nodes: &Vec<PathNodeModel>, k: usize, index: isize, values: &[Tag]) -> (r: Result<usize, NbtPathError>)
    requires
        k <= nodes@.len(),
    ensures
        match insert_tree(old(tag).deep(), nodes_view(nodes@), k as int, index as int, list_view(values@)) {
            Ok((t, n)) => r == Ok::<usize, NbtPathError>(n as usize) && final(tag).deep() == t,
            Err(e) => r == Err::<usize, NbtPathError>(e) && final(tag).deep() == old(tag).deep(),
        },
    decreases nodes@.len() - k,
{
    let ghost nv = nodes_view(nodes@);
    if k >= nodes.len() {
        return insert_into_list(tag, index, values);
    }
    assert(nv[k as int] == nodes@[k as int].deep());
    if k + 1 == nodes.len() {
        let targets = nodes[k].get(tag);
        if !all_lists(&targets) {
            return Err(NbtPathError::ExpectedList);
        }
    }
    let t = take(tag);
    match (&nodes[k], t) {
        (PathNodeModel::CompoundChild(name), Tag::Compound(fields)) => {
            let mut fields = fields;
            proof {
                lemma_fields_view(fields@);
            }
            let ghost f0 = fields@;
            let ghost fv = fields_view(f0);
            match field_position(&fields, name.as_str()) {
                Some(i) => {
                    proof {
                        lemma_first_index_from(fv, named(name@), 0);
                    }
                    let (n, mut c) = fields.remove(i);
                    let below = if k + 1 == nodes.len() {
                        insert_into_list(&mut c, index, values)
                    } else {
                        insert_at(&mut c, nodes, k + 1, index, values)
                    };
                    fields.insert(i, (n, c));
                    let ghost cv = fields@[i as int].1.deep();
                    proof {
                        assert forall|j: int| 0 <= j < fields@.len() implies ((#[trigger] fields@[j]).0@, fields@[j].1.deep())
                            == fv.update(i as int, (name@, cv))[j] by {
                            if j != i {
                                assert(fields@[j] == f0[j]);
                            }
                        }
                        lemma_fields_view_is(fields@, fv.update(i as int, (name@, cv)));
                        assert(fv.update(i as int, (name@, fv[i as int].1)) =~= fv);
                    }
                    *tag = Tag::Compound(fields);
                    below
                },
                None => {
                    *tag = Tag::Compound(fields);
                    Ok(0)
                },
            }
        },
        (_, other) => {
            *tag = other;
            Ok(0)
        },
    }
}

impl NbtPathModel {
    /// The tags that the path selects below `tag`, after creating missing
    /// parents, and a missing last tag as what `new_tag_value` gives (an
    /// element or object node creates its pattern). When nothing is selected
    /// on a path of two nodes or more, the error names the path up to the
    /// node before the last.
    pub fn get_or_create(&self, tag: &mut Tag, new_tag_value: impl Fn() -> Tag) -> (r: Result<Vec<Tag>, NbtPathError>)
        requires
            self.wf(),
            call_requires(new_tag_value, ()),
        ensures
            exists|fresh: Tag| #[trigger] call_ensures(new_tag_value, (), fresh) && {
                let (t, out) = goc_tree(old(tag).deep(), self.nodes_deep(), 0, fresh.deep());
                let n = self.nodes_deep().len();
                &&& final(tag).deep() == t
                &&& if out.len() == 0 && n > 1 {
                    r matches Err(NbtPathError::NothingFound(s)) && utf8(s@) == self.prefix(n - 2)
                } else {
                    r matches Ok(v) && list_view(v@) == out
                }
            },
    {
        let fresh = new_tag_value();
        let result = goc_at(tag, &self.nodes, 0, &fresh);
        proof {
            lemma_list_view(result@);
        }
        if result.len() == 0 && self.nodes.len() > 1 {
            Err(self.not_found(self.nodes.len() - 2))
        } else {
            Ok(result)
        }
    }

    /// Inserts `to_insert` at `index` into each list that the path selects
    /// below `target` (creating missing parents and a missing last list first);
    /// `1` when anything was inserted. Values nested too deep for the path
    /// are refused before anything changes.
    pub fn insert(&self, index: isize, target: &mut Tag, to_insert: &[Tag]) -> (r: Result<usize, NbtPathError>)
        requires
            self.wf(),
        ensures
            ({
                let n = self.nodes_deep().len();
                let vals = list_view(to_insert@);
                let (t1, targets) = goc_tree(old(target).deep(), self.nodes_deep(), 0, TagView::List(seq![]));
                if exists|j: int| 0 <= j < vals.len() && #[trigger] too_deep(vals[j], n as int) {
                    r == Err::<usize, NbtPathError>(NbtPathError::DataTooDeep) && final(target).deep() == old(target).deep()
                } else if targets.len() == 0 && n > 1 {
                    r matches Err(NbtPathError::NothingFound(s)) && utf8(s@) == self.prefix(n - 2) && final(target).deep() == t1
                } else if exists|j: int| 0 <= j < targets.len() && !(#[trigger] targets[j] is List) {
                    r == Err::<usize, NbtPathError>(NbtPathError::ExpectedList) && final(target).deep() == t1
                } else {
                    match insert_tree(t1, self.nodes_deep(), 0, index as int, vals) {
                        Ok((t2, m)) => r == Ok::<usize, NbtPathError>(m as usize) && final(target).deep() == t2,
                        Err(e) => r == Err::<usize, NbtPathError>(e) && final(target).deep() == t1,
                    }
                }
            }),
    {
        proof {
            lemma_list_view(to_insert@);
        }
        let ghost vals = list_view(to_insert@);
        let depth = self.nodes.len();
        let mut i: usize = 0;
        while i < to_insert.len()
            invariant
                0 <= i <= to_insert@.len(),
                vals == list_view(to_insert@),
                vals.len() == to_insert@.len(),
                depth == self.nodes@.len(),
                forall|j: int| 0 <= j < i ==> !too_deep(#[trigger] vals[j], depth as int),
            decreases to_insert@.len() - i,
        {
            if is_too_deep(&to_insert[i], depth) {
                assert(too_deep(vals[i as int], depth as int));
                return Err(NbtPathError::DataTooDeep);
            }
            i = i + 1;
        }
        let fresh = Tag::List(Vec::new());
        proof {
            lemma_list_view(Seq::<Tag>::empty());
            assert(list_view(Seq::<Tag>::empty()) =~= Seq::<TagView>::empty());
        }
        let targets = goc_at(target, &self.nodes, 0, &fresh);
        proof {
            lemma_list_view(targets@);
        }
        if targets.len() == 0 && self.nodes.len() > 1 {
            return Err(self.not_found(self.nodes.len() - 2));
        }
        if !all_lists(&targets) {
            return Err(NbtPathError::ExpectedList);
        }
        insert_at(target, &self.nodes, 0, index, to_insert)
    }
}
} // verus!
