//! The in-memory model of a decoded NBT value.

use vstd::prelude::*;

verus! {

broadcast use vstd::std_specs::vec::axiom_vec_index_decreases;

/// One decoded tag value. Floating-point payloads are held as their
/// IEEE-754 bit patterns.
#[derive(Debug, PartialEq)]
pub enum TagValue {
    End,
    Byte(u8),
    Short(i16),
    Int(i32),
    Long(i64),
    Float(u32),
    Double(u64),
    ByteArray(Vec<u8>),
    String(String),
    List(u8, Vec<TagValue>),
    Compound(Vec<(String, TagValue)>),
    IntArray(Vec<i32>),
    LongArray(Vec<i64>),
}

/// The mathematical model of a [`TagValue`].
pub enum TagView {
    End,
    Byte(u8),
    Short(i16),
    Int(i32),
    Long(i64),
    Float(u32),
    Double(u64),
    ByteArray(Seq<u8>),
    String(Seq<char>),
    List(u8, Seq<TagView>),
    Compound(Seq<(Seq<char>, TagView)>),
    IntArray(Seq<i32>),
    LongArray(Seq<i64>),
}

pub open spec fn tag_view(t: &TagValue) -> TagView
    decreases t,
{
    match t {
        TagValue::End => TagView::End,
        TagValue::Byte(b) => TagView::Byte(*b),
        TagValue::Short(v) => TagView::Short(*v),
        TagValue::Int(v) => TagView::Int(*v),
        TagValue::Long(v) => TagView::Long(*v),
        TagValue::Float(v) => TagView::Float(*v),
        TagValue::Double(v) => TagView::Double(*v),
        TagValue::ByteArray(v) => TagView::ByteArray(v@),
        TagValue::String(s) => TagView::String(s@),
        TagValue::List(id, items) => TagView::List(
            *id,
            Seq::new(
                items.len() as nat,
                |i: int|
                    if 0 <= i < items.len() {
                        tag_view(&items[i])
                    } else {
                        TagView::End
                    },
            ),
        ),
        TagValue::Compound(entries) => TagView::Compound(
            Seq::new(
                entries.len() as nat,
                |i: int|
                    if 0 <= i < entries.len() {
                        (entries[i].0@, tag_view(&entries[i].1))
                    } else {
                        (Seq::empty(), TagView::End)
                    },
            ),
        ),
        TagValue::IntArray(v) => TagView::IntArray(v@),
        TagValue::LongArray(v) => TagView::LongArray(v@),
    }
}

/// The model of a sequence of tags.
pub open spec fn tag_views(v: Seq<TagValue>) -> Seq<TagView> {
    v.map_values(|t: TagValue| t@)
}

/// The model of a sequence of compound entries.
pub open spec fn entry_views(v: Seq<(String, TagValue)>) -> Seq<(Seq<char>, TagView)> {
    v.map_values(|e: (String, TagValue)| (e.0@, e.1@))
}

/// No two entries of a compound share a key.
pub open spec fn keys_unique(e: Seq<(Seq<char>, TagView)>) -> bool {
    forall|i: int, j: int| 0 <= i < j < e.len() ==> e[i].0 != e[j].0
}

impl View for TagValue {
    type V = TagView;

    open spec fn view(&self) -> TagView {
        tag_view(self)
    }
}

/// The model of a list value is the models of its items.
pub proof fn lemma_list_view(id: u8, items: Vec<TagValue>)
    ensures
        TagValue::List(id, items)@ == TagView::List(id, tag_views(items@)),
{
    let t = TagValue::List(id, items);
    if let TagView::List(_, s) = t@ {
        assert(s =~= tag_views(items@));
    }
}

/// The model of a compound value is the models of its entries.
pub proof fn lemma_compound_view(entries: Vec<(String, TagValue)>)
    ensures
        TagValue::Compound(entries)@ == TagView::Compound(entry_views(entries@)),
{
    let t = TagValue::Compound(entries);
    if let TagView::Compound(s) = t@ {
        assert(s =~= entry_views(entries@));
    }
}

} // verus!
