use vstd::prelude::*;

verus! {

/// The mathematical value of one decoded attribute value.
#[verifier::ext_equal]
pub ghost enum ValueModel {
    Bool(bool),
    /// A 32-bit signed integer, whatever its width on the wire.
    Int(i32),
    /// The raw bit pattern of a 32-bit IEEE-754 value.
    FloatBits(u32),
    Str(Seq<char>),
}

/// The mathematical value of one attribute: its key and its value.
#[verifier::ext_equal]
pub ghost struct AttrModel {
    pub key: Seq<char>,
    pub value: ValueModel,
}

/// The mathematical value of one decoded element: a name, a mapping from
/// attribute key to value, and the children in document order.
#[verifier::ext_equal]
pub ghost struct ElemModel {
    pub name: Seq<char>,
    pub attrs: Map<Seq<char>, ValueModel>,
    pub children: Seq<ElemModel>,
}

/// The mathematical value of one playable room.
#[verifier::ext_equal]
pub ghost struct LevelModel {
    pub x: i32,
    pub y: i32,
    pub width: u32,
    pub height: u32,
    pub solids: Seq<char>,
    pub bg: Seq<char>,
    pub name: Seq<char>,
    pub c: i32,
}

/// The mathematical value of one decorative filler rectangle.
#[verifier::ext_equal]
pub ghost struct FillerModel {
    pub x: i32,
    pub y: i32,
    pub w: u32,
    pub h: u32,
}

/// The mathematical value of a projected document: the rooms and the
/// filler rectangles, each in document order. The style node carries no
/// fields; only its presence matters, and a model exists only for
/// documents that have one.
#[verifier::ext_equal]
pub ghost struct GameMapModel {
    pub levels: Seq<LevelModel>,
    pub filler: Seq<FillerModel>,
}

/// The attribute mapping an ordered attribute list stands for: entries are
/// inserted in order, so of two equal keys the later one wins.
pub open spec fn attrs_map(s: Seq<AttrModel>) -> Map<Seq<char>, ValueModel>
    decreases s.len(),
{
    if s.len() == 0 {
        Map::empty()
    } else {
        attrs_map(s.drop_last()).insert(s.last().key, s.last().value)
    }
}

/// Appending an attribute inserts its key into the mapping; the appended
/// value shadows whatever the key held before. This is the last-write-wins
/// rule for duplicate attribute keys.
pub proof fn lemma_attrs_map_push(s: Seq<AttrModel>, a: AttrModel)
    ensures
        attrs_map(s.push(a)) == attrs_map(s).insert(a.key, a.value),
{
    assert(s.push(a).drop_last() =~= s);
    assert(s.push(a).last() == a);
}

/// A key other than the last entry's is looked up in the rest of the list.
pub proof fn lemma_attrs_map_skip(s: Seq<AttrModel>, k: Seq<char>)
    requires
        s.len() > 0,
        s.last().key != k,
    ensures
        attrs_map(s).contains_key(k) == attrs_map(s.drop_last()).contains_key(k),
        attrs_map(s).contains_key(k) ==> attrs_map(s)[k] == attrs_map(s.drop_last())[k],
{
}

} // verus!
