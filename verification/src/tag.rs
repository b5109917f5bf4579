//! The tree that the notation describes.

use vstd::prelude::*;
use crate::number::is_decimal_text;

verus! {

/// The twelve kinds of tag, in the order in which a list tries them.
#[derive(PartialEq, Eq, Clone, Copy, Hash, Debug, Structural)]
pub enum TagKind {
    Byte,
    Short,
    Int,
    Long,
    Float,
    Double,
    ByteArray,
    String,
    List,
    Compound,
    IntArray,
    LongArray,
}

/// A list of tags that are all of one kind.
#[derive(PartialEq, Eq, Debug)]
pub struct ListTag {
    /// The kind of every item.
    pub kind: TagKind,
    pub items: Vec<Tag>,
}

/// A tagged value.
///
/// `Float` and `Double` hold the literal as it was written, sign, digits
/// and fraction: the nearest binary number is for the caller to take.  A
/// compound holds its members in the order written, names that repeat
/// included.
#[derive(PartialEq, Eq, Debug)]
pub enum Tag {
    Byte(i8),
    Short(i16),
    Int(i32),
    Long(i64),
    Float(String),
    Double(String),
    ByteArray(Vec<i8>),
    String(String),
    List(ListTag),
    Compound(Vec<(String, Tag)>),
    IntArray(Vec<i32>),
    LongArray(Vec<i64>),
}

/// What a [`Tag`] is in contracts.
pub ghost enum TagModel {
    Byte(i8),
    Short(i16),
    Int(i32),
    Long(i64),
    Float(Seq<char>),
    Double(Seq<char>),
    ByteArray(Seq<i8>),
    String(Seq<char>),
    List(TagKind, Seq<TagModel>),
    Compound(Seq<(Seq<char>, TagModel)>),
    IntArray(Seq<i32>),
    LongArray(Seq<i64>),
}

impl TagModel {
    pub open spec fn kind(self) -> TagKind {
        match self {
            TagModel::Byte(_) => TagKind::Byte,
            TagModel::Short(_) => TagKind::Short,
            TagModel::Int(_) => TagKind::Int,
            TagModel::Long(_) => TagKind::Long,
            TagModel::Float(_) => TagKind::Float,
            TagModel::Double(_) => TagKind::Double,
            TagModel::ByteArray(_) => TagKind::ByteArray,
            TagModel::String(_) => TagKind::String,
            TagModel::List(_, _) => TagKind::List,
            TagModel::Compound(_) => TagKind::Compound,
            TagModel::IntArray(_) => TagKind::IntArray,
            TagModel::LongArray(_) => TagKind::LongArray,
        }
    }

    /// Every list in the tree holds items of its own kind only, and every
    /// `Float` and `Double` holds the text of a floating literal.
    pub open spec fn wf(self) -> bool
        decreases self,
    {
        match self {
            TagModel::Float(text) => is_decimal_text(text),
            TagModel::Double(text) => is_decimal_text(text),
            TagModel::List(kind, items) => forall|i: int|
                0 <= i < items.len() ==> (#[trigger] items[i]).kind() == kind && items[i].wf(),
            TagModel::Compound(members) => forall|i: int|
                0 <= i < members.len() ==> (#[trigger] members[i]).1.wf(),
            _ => true,
        }
    }
}

/// The model of a tag: the same tree with its texts and vectors as
/// sequences.
pub open spec fn tag_model(tag: Tag) -> TagModel
    decreases tag,
{
    match tag {
        Tag::Byte(v) => TagModel::Byte(v),
        Tag::Short(v) => TagModel::Short(v),
        Tag::Int(v) => TagModel::Int(v),
        Tag::Long(v) => TagModel::Long(v),
        Tag::Float(text) => TagModel::Float(text@),
        Tag::Double(text) => TagModel::Double(text@),
        Tag::ByteArray(v) => TagModel::ByteArray(v@),
        Tag::String(text) => TagModel::String(text@),
        Tag::List(list) => TagModel::List(
            list.kind,
            Seq::new(
                list.items@.len(),
                |i: int|
                    if 0 <= i < list.items@.len() {
                        tag_model(list.items@[i])
                    } else {
                        TagModel::Byte(0)
                    },
            ),
        ),
        Tag::Compound(members) => TagModel::Compound(
            Seq::new(
                members@.len(),
                |i: int|
                    if 0 <= i < members@.len() {
                        (members@[i].0@, tag_model(members@[i].1))
                    } else {
                        (Seq::empty(), TagModel::Byte(0))
                    },
            ),
        ),
        Tag::IntArray(v) => TagModel::IntArray(v@),
        Tag::LongArray(v) => TagModel::LongArray(v@),
    }
}

impl TagModel {
    /// This tree can come of reading with `depth` levels of lists and
    /// compounds allowed: it is well formed, it is nested no deeper than
    /// that, and a list in it that holds nothing is a list of bytes.
    pub open spec fn readable(self, depth: nat) -> bool
        decreases self,
    {
        match self {
            TagModel::Float(text) => is_decimal_text(text),
            TagModel::Double(text) => is_decimal_text(text),
            TagModel::List(kind, items) => {
                &&& depth > 0
                &&& items.len() == 0 ==> kind == TagKind::Byte
                &&& forall|i: int|
                    0 <= i < items.len() ==> (#[trigger] items[i]).kind() == kind
                        && items[i].readable((depth - 1) as nat)
            },
            TagModel::Compound(members) => {
                &&& depth > 0
                &&& forall|i: int|
                    0 <= i < members.len() ==> (#[trigger] members[i]).1.readable(
                        (depth - 1) as nat,
                    )
            },
            _ => true,
        }
    }
}

impl View for Tag {
    type V = TagModel;

    open spec fn view(&self) -> TagModel {
        tag_model(*self)
    }
}

/// The models of a sequence of tags.
pub open spec fn tag_models(tags: Seq<Tag>) -> Seq<TagModel> {
    Seq::new(tags.len(), |i: int| tags[i]@)
}

/// The models of the members of a compound.
pub open spec fn member_models(members: Seq<(String, Tag)>) -> Seq<(Seq<char>, TagModel)> {
    Seq::new(members.len(), |i: int| (members[i].0@, members[i].1@))
}

impl Tag {
    /// The kind of this tag.
    pub fn kind(&self) -> (k: TagKind)
        ensures
            k == self@.kind(),
    {
        match self {
            Tag::Byte(_) => TagKind::Byte,
            Tag::Short(_) => TagKind::Short,
            Tag::Int(_) => TagKind::Int,
            Tag::Long(_) => TagKind::Long,
            Tag::Float(_) => TagKind::Float,
            Tag::Double(_) => TagKind::Double,
            Tag::ByteArray(_) => TagKind::ByteArray,
            Tag::String(_) => TagKind::String,
            Tag::List(_) => TagKind::List,
            Tag::Compound(_) => TagKind::Compound,
            Tag::IntArray(_) => TagKind::IntArray,
            Tag::LongArray(_) => TagKind::LongArray,
        }
    }

    /// Makes the list tag of kind `kind` that holds `items`.  Nothing is
    /// checked: the tag is well formed if every item is, and is of kind
    /// `kind`.
    pub fn list(kind: TagKind, items: Vec<Tag>) -> (tag: Tag)
        ensures
            tag@ == TagModel::List(kind, tag_models(items@)),
            tag@.wf() <==> forall|i: int|
                0 <= i < items.len() ==> (#[trigger] items[i])@.kind() == kind && items[i]@.wf(),
    {
        let tag = Tag::List(ListTag { kind, items });
        proof {
            let models = tag_models(items@);
            assert(tag@->List_1 =~= models);
            if tag@.wf() {
                assert forall|i: int| 0 <= i < items.len() implies (#[trigger] items[i])@.kind()
                    == kind && items[i]@.wf() by {
                    assert(models[i] == items[i]@);
                }
            } else {
                let i = choose|i: int|
                    0 <= i < models.len() && !((#[trigger] models[i]).kind() == kind
                        && models[i].wf());
                assert(models[i] == items[i]@);
            }
        }
        tag
    }

    /// Makes the compound tag that holds `members`, in their order.
    pub fn compound(members: Vec<(String, Tag)>) -> (tag: Tag)
        ensures
            tag@ == TagModel::Compound(member_models(members@)),
            tag@.wf() <==> forall|i: int|
                0 <= i < members.len() ==> (#[trigger] members[i]).1@.wf(),
    {
        let tag = Tag::Compound(members);
        proof {
            let models = member_models(members@);
            assert(tag@->Compound_0 =~= models);
            if tag@.wf() {
                assert forall|i: int| 0 <= i < members.len() implies (
                #[trigger] members[i]).1@.wf() by {
                    assert(models[i].1 == members[i].1@);
                }
            } else {
                let i = choose|i: int| 0 <= i < models.len() && !(#[trigger] models[i]).1.wf();
                assert(models[i].1 == members[i].1@);
            }
        }
        tag
    }
}

} // verus!
