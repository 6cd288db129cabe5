//! Named binary tags: compounds of named fields, lists, strings and
//! integers, with their value as a tree of sequences.

use vstd::prelude::*;
use crate::text::str_eq;

verus! {

#[derive(Debug, PartialEq, Eq)]
pub enum Tag {
    Compound(Vec<(String, Tag)>),
    List(Vec<Tag>),
    String(String),
    Int(i32),
}

/// The value of a tag: field names and strings as characters.
pub enum TagView {
    Compound(Seq<(Seq<char>, TagView)>),
    List(Seq<TagView>),
    Str(Seq<char>),
    Int(i32),
}

/// The values of compound fields, in order.
pub open spec fn fields_view(fields: Seq<(String, Tag)>) -> Seq<(Seq<char>, TagView)>
    decreases fields,
{
    if fields.len() == 0 {
        seq![]
    } else {
        fields_view(fields.drop_last()).push((fields.last().0@, fields.last().1.deep()))
    }
}

/// The values of list elements, in order.
pub open spec fn list_view(values: Seq<Tag>) -> Seq<TagView>
    decreases values,
{
    if values.len() == 0 {
        seq![]
    } else {
        list_view(values.drop_last()).push(values.last().deep())
    }
}

impl Tag {
    /// The value of the tag.
    pub open spec fn deep(&self) -> TagView
        decreases self,
    {
        match self {
            Tag::Compound(fields) => TagView::Compound(fields_view(fields@)),
            Tag::List(values) => TagView::List(list_view(values@)),
            Tag::String(s) => TagView::Str(s@),
            Tag::Int(v) => TagView::Int(*v),
        }
    }
}

pub proof fn lemma_fields_view(fields: Seq<(String, Tag)>)
    ensures
        fields_view(fields).len() == fields.len(),
        forall|i: int| 0 <= i < fields.len() ==> #[trigger] fields_view(fields)[i] == (fields[i].0@, fields[i].1.deep()),
    decreases fields.len(),
{
    if fields.len() > 0 {
        lemma_fields_view(fields.drop_last());
        assert forall|i: int| 0 <= i < fields.len() implies #[trigger] fields_view(fields)[i] == (fields[i].0@, fields[i].1.deep()) by {
            if i < fields.len() - 1 {
                assert(fields.drop_last()[i] == fields[i]);
            }
        }
    }
}

pub proof fn lemma_list_view(values: Seq<Tag>)
    ensures
        list_view(values).len() == values.len(),
        forall|i: int| 0 <= i < values.len() ==> #[trigger] list_view(values)[i] == values[i].deep(),
    decreases values.len(),
{
    if values.len() > 0 {
        lemma_list_view(values.drop_last());
        assert forall|i: int| 0 <= i < values.len() implies #[trigger] list_view(values)[i] == values[i].deep() by {
            if i < values.len() - 1 {
                assert(values.drop_last()[i] == values[i]);
            }
        }
    }
}

/// Two sequences of fields with the same values.
pub proof fn lemma_fields_view_ext(a: Seq<(String, Tag)>, b: Seq<(String, Tag)>)
    requires
        a.len() == b.len(),
        forall|i: int| 0 <= i < a.len() ==> a[i].0@ == b[i].0@ && (#[trigger] a[i]).1.deep() == b[i].1.deep(),
    ensures
        fields_view(a) == fields_view(b),
{
    lemma_fields_view(a);
    lemma_fields_view(b);
    assert(fields_view(a) =~= fields_view(b));
}

/// Two sequences of elements with the same values.
pub proof fn lemma_list_view_ext(a: Seq<Tag>, b: Seq<Tag>)
    requires
        a.len() == b.len(),
        forall|i: int| 0 <= i < a.len() ==> (#[trigger] a[i]).deep() == b[i].deep(),
    ensures
        list_view(a) == list_view(b),
{
    lemma_list_view(a);
    lemma_list_view(b);
    assert(list_view(a) =~= list_view(b));
}

/// A sequence of fields whose names and values are the given ones.
pub proof fn lemma_fields_view_is(a: Seq<(String, Tag)>, e: Seq<(Seq<char>, TagView)>)
    requires
        a.len() == e.len(),
        forall|i: int| 0 <= i < a.len() ==> ((#[trigger] a[i]).0@, a[i].1.deep()) == e[i],
    ensures
        fields_view(a) == e,
{
    lemma_fields_view(a);
    assert(fields_view(a) =~= e);
}

/// A sequence of elements whose values are the given ones.
pub proof fn lemma_list_view_is(a: Seq<Tag>, e: Seq<TagView>)
    requires
        a.len() == e.len(),
        forall|i: int| 0 <= i < a.len() ==> (#[trigger] a[i]).deep() == e[i],
    ensures
        list_view(a) == e,
{
    lemma_list_view(a);
    assert(list_view(a) =~= e);
}

impl Tag {
    /// A copy of the tag with the same value.
    pub fn copy(&self) -> (r: Tag)
        ensures
            r.deep() == self.deep(),
        decreases self,
    {
        match self {
            Tag::Compound(fields) => {
                let mut out: Vec<(String, Tag)> = Vec::new();
                let mut i: usize = 0;
                while i < fields.len()
                    invariant
                        0 <= i <= fields@.len(),
                        out@.len() == i,
                        forall|k: int| 0 <= k < i ==> out@[k].0@ == fields@[k].0@ && (#[trigger] out@[k]).1.deep() == fields@[k].1.deep(),
                    decreases fields@.len() - i,
                {
                    let field = &fields[i];
                    assert(decreases_to!(self => field.1));
                    out.push((field.0.clone(), field.1.copy()));
                    i = i + 1;
                }
                proof {
                    lemma_fields_view_ext(out@, fields@);
                }
                Tag::Compound(out)
            },
            Tag::List(values) => {
                let mut out: Vec<Tag> = Vec::new();
                let mut i: usize = 0;
                while i < values.len()
                    invariant
                        0 <= i <= values@.len(),
                        out@.len() == i,
                        forall|k: int| 0 <= k < i ==> (#[trigger] out@[k]).deep() == values@[k].deep(),
                    decreases values@.len() - i,
                {
                    let value = &values[i];
                    assert(decreases_to!(self => *value));
                    out.push(value.copy());
                    i = i + 1;
                }
                proof {
                    lemma_list_view_ext(out@, values@);
                }
                Tag::List(out)
            },
            Tag::String(s) => Tag::String(s.clone()),
            Tag::Int(v) => Tag::Int(*v),
        }
    }

    /// Whether the two tags have the same value.
    pub fn equals(&self, other: &Tag) -> (r: bool)
        ensures
            r == (self.deep() == other.deep()),
        decreases self,
    {
        match (self, other) {
            (Tag::Compound(a), Tag::Compound(b)) => {
                proof {
                    lemma_fields_view(a@);
                    lemma_fields_view(b@);
                }
                if a.len() != b.len() {
                    return false;
                }
                let mut i: usize = 0;
                while i < a.len()
                    invariant
                        0 <= i <= a@.len(),
                        a@.len() == b@.len(),
                        forall|k: int| 0 <= k < i ==> (#[trigger] fields_view(a@)[k]) == fields_view(b@)[k],
                    decreases a@.len() - i,
                {
                    let x = &a[i];
                    assert(decreases_to!(self => x.1));
                    if !str_eq(x.0.as_str(), b[i].0.as_str()) || !x.1.equals(&b[i].1) {
                        assert(fields_view(a@)[i as int] != fields_view(b@)[i as int]);
                        return false;
                    }
                    i = i + 1;
                }
                assert(fields_view(a@) =~= fields_view(b@));
                true
            },
            (Tag::List(a), Tag::List(b)) => {
                proof {
                    lemma_list_view(a@);
                    lemma_list_view(b@);
                }
                if a.len() != b.len() {
                    return false;
                }
                let mut i: usize = 0;
                while i < a.len()
                    invariant
                        0 <= i <= a@.len(),
                        a@.len() == b@.len(),
                        forall|k: int| 0 <= k < i ==> (#[trigger] list_view(a@)[k]) == list_view(b@)[k],
                    decreases a@.len() - i,
                {
                    let x = &a[i];
                    assert(decreases_to!(self => *x));
                    if !x.equals(&b[i]) {
                        assert(list_view(a@)[i as int] != list_view(b@)[i as int]);
                        return false;
                    }
                    i = i + 1;
                }
                assert(list_view(a@) =~= list_view(b@));
                true
            },
            (Tag::String(a), Tag::String(b)) => str_eq(a.as_str(), b.as_str()),
            (Tag::Int(a), Tag::Int(b)) => *a == *b,
            _ => false,
        }
    }
}

impl Clone for Tag {
    fn clone(&self) -> (r: Self)
        ensures
            r.deep() == self.deep(),
    {
        self.copy()
    }
}

} // verus!
