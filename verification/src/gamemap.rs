use vstd::prelude::*;
use vstd::string::*;

use crate::element::{children_models, lemma_children_models, Element, Value};
use crate::error::MapError;
use crate::model::{ElemModel, FillerModel, GameMapModel, LevelModel, ValueModel};

verus! {

broadcast use vstd::std_specs::vec::group_vec_axioms, vstd::seq::group_seq_axioms;

/// The last child with the given name, if any: when a name occurs twice
/// among the children, the later occurrence wins, as it does for repeated
/// attribute keys.
pub open spec fn last_named(children: Seq<ElemModel>, name: Seq<char>) -> Option<ElemModel>
    decreases children.len(),
{
    if children.len() == 0 {
        None
    } else if children.last().name == name {
        Some(children.last())
    } else {
        last_named(children.drop_last(), name)
    }
}

/// The value under `key`, if the element has one.
pub open spec fn spec_attr(e: ElemModel, key: Seq<char>) -> Option<ValueModel> {
    if e.attrs.contains_key(key) {
        Some(e.attrs[key])
    } else {
        None
    }
}

/// A mandatory integer attribute: absent is `MissingRequiredAttribute`,
/// present but not an integer is `TypeMismatch`.
pub open spec fn spec_int_attr(e: ElemModel, key: Seq<char>) -> Result<i32, MapError> {
    match spec_attr(e, key) {
        Option::None => Err(MapError::MissingRequiredAttribute),
        Option::Some(ValueModel::Int(v)) => Ok(v),
        Option::Some(_) => Err(MapError::TypeMismatch),
    }
}

/// A mandatory text attribute: absent is `MissingRequiredAttribute`,
/// present but not text is `TypeMismatch`.
pub open spec fn spec_str_attr(e: ElemModel, key: Seq<char>) -> Result<Seq<char>, MapError> {
    match spec_attr(e, key) {
        Option::None => Err(MapError::MissingRequiredAttribute),
        Option::Some(ValueModel::Str(s)) => Ok(s),
        Option::Some(_) => Err(MapError::TypeMismatch),
    }
}

/// A name with the historical "lvl_" prefix stripped, if it carries one.
pub open spec fn spec_strip_lvl(s: Seq<char>) -> Seq<char> {
    if s.len() >= 4 && s.subrange(0, 4) == "lvl_"@ {
        s.subrange(4, s.len() as int)
    } else {
        s
    }
}

/// Stripping the prefix from a name that carries it yields exactly the
/// rest of the name.
pub proof fn lemma_strip_lvl_prefix(s: Seq<char>)
    ensures
        spec_strip_lvl("lvl_"@ + s) == s,
{
    reveal_strlit("lvl_");
    assert(("lvl_"@ + s).subrange(0, 4) =~= "lvl_"@);
    assert(("lvl_"@ + s).subrange(4, ("lvl_"@ + s).len() as int) =~= s);
}

/// The tile grid carried by the last child named `name`, as the text of
/// its "innerText" attribute. A missing child or a missing attribute
/// stands for an empty grid; a non-text attribute is `TypeMismatch`.
pub open spec fn spec_grid(e: ElemModel, name: Seq<char>) -> Result<Seq<char>, MapError> {
    match last_named(e.children, name) {
        Option::None => Ok(Seq::empty()),
        Option::Some(child) => match spec_attr(child, "innerText"@) {
            Option::None => Ok(Seq::empty()),
            Option::Some(ValueModel::Str(s)) => Ok(s),
            Option::Some(_) => Err(MapError::TypeMismatch),
        },
    }
}

/// One room projected from an element: the mandatory attributes x, y,
/// width, height, name and c, the width and height reinterpreted as
/// unsigned, the name stripped of its "lvl_" prefix, and the optional
/// "solids" and "bg" tile grids.
pub open spec fn spec_level(e: ElemModel) -> Result<LevelModel, MapError> {
    match spec_int_attr(e, "x"@) {
        Err(er) => Err(er),
        Ok(x) => match spec_int_attr(e, "y"@) {
            Err(er) => Err(er),
            Ok(y) => match spec_int_attr(e, "width"@) {
                Err(er) => Err(er),
                Ok(w) => match spec_int_attr(e, "height"@) {
                    Err(er) => Err(er),
                    Ok(h) => match spec_str_attr(e, "name"@) {
                        Err(er) => Err(er),
                        Ok(name) => match spec_int_attr(e, "c"@) {
                            Err(er) => Err(er),
                            Ok(c) => match spec_grid(e, "solids"@) {
                                Err(er) => Err(er),
                                Ok(solids) => match spec_grid(e, "bg"@) {
                                    Err(er) => Err(er),
                                    Ok(bg) => Ok(
                                        LevelModel {
                                            x,
                                            y,
                                            width: w as u32,
                                            height: h as u32,
                                            solids,
                                            bg,
                                            name: spec_strip_lvl(name),
                                            c,
                                        },
                                    ),
                                },
                            },
                        },
                    },
                },
            },
        },
    }
}

/// One filler rectangle projected from an element: the mandatory integer
/// attributes x, y, w and h, the sizes reinterpreted as unsigned.
pub open spec fn spec_filler(e: ElemModel) -> Result<FillerModel, MapError> {
    match spec_int_attr(e, "x"@) {
        Err(er) => Err(er),
        Ok(x) => match spec_int_attr(e, "y"@) {
            Err(er) => Err(er),
            Ok(y) => match spec_int_attr(e, "w"@) {
                Err(er) => Err(er),
                Ok(w) => match spec_int_attr(e, "h"@) {
                    Err(er) => Err(er),
                    Ok(h) => Ok(FillerModel { x, y, w: w as u32, h: h as u32 }),
                },
            },
        },
    }
}

/// All rooms of a "levels" container, in order; the first failing child
/// fails the whole projection.
pub open spec fn spec_levels(children: Seq<ElemModel>) -> Result<Seq<LevelModel>, MapError>
    decreases children.len(),
{
    if children.len() == 0 {
        Ok(Seq::empty())
    } else {
        match spec_levels(children.drop_last()) {
            Err(er) => Err(er),
            Ok(pre) => match spec_level(children.last()) {
                Err(er) => Err(er),
                Ok(l) => Ok(pre.push(l)),
            },
        }
    }
}

/// All rectangles of a "Filler" container, in order; the first failing
/// child fails the whole projection.
pub open spec fn spec_fillers(children: Seq<ElemModel>) -> Result<Seq<FillerModel>, MapError>
    decreases children.len(),
{
    if children.len() == 0 {
        Ok(Seq::empty())
    } else {
        match spec_fillers(children.drop_last()) {
            Err(er) => Err(er),
            Ok(pre) => match spec_filler(children.last()) {
                Err(er) => Err(er),
                Ok(f) => Ok(pre.push(f)),
            },
        }
    }
}

/// The typed projection of a decoded document. The root must hold one
/// "levels" child and one "Style" child, or the projection fails with
/// `MissingRequiredNode`; a "Filler" child is optional and its absence
/// stands for an empty filler sequence.
pub open spec fn spec_project(root: ElemModel) -> Result<GameMapModel, MapError> {
    match last_named(root.children, "levels"@) {
        Option::None => Err(MapError::MissingRequiredNode),
        Option::Some(levels_node) => match spec_levels(levels_node.children) {
            Err(er) => Err(er),
            Ok(ls) => {
                let filler_r = match last_named(root.children, "Filler"@) {
                    Option::None => Ok(Seq::<FillerModel>::empty()),
                    Option::Some(filler_node) => spec_fillers(filler_node.children),
                };
                match filler_r {
                    Err(er) => Err(er),
                    Ok(fs) => match last_named(root.children, "Style"@) {
                        Option::None => Err(MapError::MissingRequiredNode),
                        Option::Some(_) => Ok(GameMapModel { levels: ls, filler: fs }),
                    },
                }
            },
        },
    }
}

/// An error in a prefix of the children fails the projection of all of
/// them, with the same error.
proof fn lemma_levels_prefix_err(children: Seq<ElemModel>, j: int, er: MapError)
    requires
        0 <= j <= children.len(),
        spec_levels(children.take(j)) == Err::<Seq<LevelModel>, MapError>(er),
    ensures
        spec_levels(children) == Err::<Seq<LevelModel>, MapError>(er),
    decreases children.len(),
{
    if j == children.len() {
        assert(children.take(j) =~= children);
    } else {
        assert(children.drop_last().take(j) =~= children.take(j));
        lemma_levels_prefix_err(children.drop_last(), j, er);
    }
}

/// An error in a prefix of the children fails the projection of all of
/// them, with the same error.
proof fn lemma_fillers_prefix_err(children: Seq<ElemModel>, j: int, er: MapError)
    requires
        0 <= j <= children.len(),
        spec_fillers(children.take(j)) == Err::<Seq<FillerModel>, MapError>(er),
    ensures
        spec_fillers(children) == Err::<Seq<FillerModel>, MapError>(er),
    decreases children.len(),
{
    if j == children.len() {
        assert(children.take(j) =~= children);
    } else {
        assert(children.drop_last().take(j) =~= children.take(j));
        lemma_fillers_prefix_err(children.drop_last(), j, er);
    }
}

/// A playable room: a position, an unsigned size, a display-color index,
/// a name, and two optional newline-delimited tile grids in which '0' is
/// an empty cell and any other character an occupied one.
#[derive(Debug, PartialEq)]
pub struct Level {
    pub x: i32,
    pub y: i32,
    pub width: u32,
    pub height: u32,
    pub solids: String,
    pub bg: String,
    pub name: String,
    pub c: i32,
}

impl View for Level {
    type V = LevelModel;

    open spec fn view(&self) -> LevelModel {
        LevelModel {
            x: self.x,
            y: self.y,
            width: self.width,
            height: self.height,
            solids: self.solids@,
            bg: self.bg@,
            name: self.name@,
            c: self.c,
        }
    }
}

/// A decorative filler rectangle.
#[derive(Debug, PartialEq)]
pub struct Filler {
    pub x: i32,
    pub y: i32,
    pub w: u32,
    pub h: u32,
}

impl View for Filler {
    type V = FillerModel;

    open spec fn view(&self) -> FillerModel {
        FillerModel { x: self.x, y: self.y, w: self.w, h: self.h }
    }
}

/// The document style. It carries no fields; only its presence in the
/// source document matters.
#[derive(Debug, PartialEq)]
pub struct Style {}

/// The typed domain model of one document: rooms, filler rectangles and
/// the style, built once per successful projection.
#[derive(Debug, PartialEq)]
pub struct GameMap {
    pub levels: Vec<Level>,
    pub filler: Vec<Filler>,
    pub style: Style,
}

/// The models of a sequence of rooms, in order.
pub open spec fn level_models(s: Seq<Level>) -> Seq<LevelModel> {
    Seq::new(s.len(), |i: int| s[i]@)
}

/// The models of a sequence of filler rectangles, in order.
pub open spec fn filler_models(s: Seq<Filler>) -> Seq<FillerModel> {
    Seq::new(s.len(), |i: int| s[i]@)
}

impl View for GameMap {
    type V = GameMapModel;

    open spec fn view(&self) -> GameMapModel {
        GameMapModel { levels: level_models(self.levels@), filler: filler_models(self.filler@) }
    }
}

/// The last child of `e` with the given name, if any.
#[verifier::loop_isolation(false)]
fn find_last_child<'a>(e: &'a Element, name: &str) -> (r: Option<&'a Element>)
    ensures
        (match r {
            Some(c) => last_named(e@.children, name@) == Some(c@),
            None => last_named(e@.children, name@) is None,
        }),
{
    let name_s = String::from_str(name);
    let ghost cm = children_models(e.children@);
    proof {
        lemma_children_models(e.children@);
        assert(cm.take(e.children@.len() as int) =~= cm);
    }
    let mut idx = e.children.len();
    while idx > 0
        invariant
            idx <= e.children.len(),
            last_named(cm, name@) == last_named(cm.take(idx as int), name@),
        decreases idx,
    {
        let c = &e.children[idx - 1];
        if c.name == name_s {
            proof {
                assert(cm.take(idx as int).last() == c@);
            }
            return Some(c);
        }
        proof {
            assert(cm.take(idx as int).last() == c@);
            assert(cm.take(idx as int).drop_last() =~= cm.take(idx - 1));
        }
        idx = idx - 1;
    }
    proof {
        assert(cm.take(0) =~= Seq::<ElemModel>::empty());
    }
    None
}

/// A mandatory integer attribute of `e`; see `spec_int_attr`.
fn int_attr(e: &Element, key: &str) -> (r: Result<i32, MapError>)
    ensures
        r == spec_int_attr(e@, key@),
{
    match e.get_attr(key) {
        None => Err(MapError::MissingRequiredAttribute),
        Some(v) => match v.as_int() {
            Some(i) => Ok(i),
            None => Err(MapError::TypeMismatch),
        },
    }
}

/// A mandatory text attribute of `e`; see `spec_str_attr`.
fn str_attr(e: &Element, key: &str) -> (r: Result<String, MapError>)
    ensures
        (match r {
            Ok(s) => spec_str_attr(e@, key@) == Ok::<Seq<char>, MapError>(s@),
            Err(er) => spec_str_attr(e@, key@) == Err::<Seq<char>, MapError>(er),
        }),
{
    match e.get_attr(key) {
        None => Err(MapError::MissingRequiredAttribute),
        Some(v) => match v.as_str() {
            Some(s) => Ok(String::from_str(s)),
            None => Err(MapError::TypeMismatch),
        },
    }
}

/// The tile grid of the last child of `e` named `name`; see `spec_grid`.
fn grid_text(e: &Element, name: &str) -> (r: Result<String, MapError>)
    ensures
        (match r {
            Ok(s) => spec_grid(e@, name@) == Ok::<Seq<char>, MapError>(s@),
            Err(er) => spec_grid(e@, name@) == Err::<Seq<char>, MapError>(er),
        }),
{
    match find_last_child(e, name) {
        None => Ok(String::new()),
        Some(child) => match child.get_attr("innerText") {
            None => Ok(String::new()),
            Some(v) => match v.as_str() {
                Some(s) => Ok(String::from_str(s)),
                None => Err(MapError::TypeMismatch),
            },
        },
    }
}

/// Strips the historical "lvl_" prefix from a room name, if it carries
/// one; see `spec_strip_lvl`.
fn strip_lvl(name: &str) -> (r: String)
    ensures
        r@ == spec_strip_lvl(name@),
{
    let n = name.unicode_len();
    if n >= 4 && name.get_char(0) == 'l' && name.get_char(1) == 'v' && name.get_char(2) == 'l'
        && name.get_char(3) == '_' {
        proof {
            reveal_strlit("lvl_");
            assert(name@.subrange(0, 4) =~= "lvl_"@);
        }
        String::from_str(name.substring_char(4, n))
    } else {
        proof {
            reveal_strlit("lvl_");
            if name@.len() >= 4 && name@.subrange(0, 4) == "lvl_"@ {
                assert(name@[0] == name@.subrange(0, 4)[0]);
                assert(name@[1] == name@.subrange(0, 4)[1]);
                assert(name@[2] == name@.subrange(0, 4)[2]);
                assert(name@[3] == name@.subrange(0, 4)[3]);
                assert("lvl_"@[0] == 'l' && "lvl_"@[1] == 'v' && "lvl_"@[2] == 'l' && "lvl_"@[3]
                    == '_');
            }
        }
        String::from_str(name)
    }
}

impl Level {
    /// Projects one room element; see `spec_level` for the exact contract.
    pub fn from(e: &Element) -> (r: Result<Level, MapError>)
        ensures
            (match spec_level(e@) {
                Ok(m) => r matches Ok(l) && l@ == m,
                Err(er) => r == Err::<Level, MapError>(er),
            }),
    {
        let x = match int_attr(e, "x") {
            Ok(v) => v,
            Err(er) => {
                return Err(er);
            },
        };
        let y = match int_attr(e, "y") {
            Ok(v) => v,
            Err(er) => {
                return Err(er);
            },
        };
        let width = match int_attr(e, "width") {
            Ok(v) => v,
            Err(er) => {
                return Err(er);
            },
        };
        let height = match int_attr(e, "height") {
            Ok(v) => v,
            Err(er) => {
                return Err(er);
            },
        };
        let name_raw = match str_attr(e, "name") {
            Ok(v) => v,
            Err(er) => {
                return Err(er);
            },
        };
        let c = match int_attr(e, "c") {
            Ok(v) => v,
            Err(er) => {
                return Err(er);
            },
        };
        let solids = match grid_text(e, "solids") {
            Ok(v) => v,
            Err(er) => {
                return Err(er);
            },
        };
        let bg = match grid_text(e, "bg") {
            Ok(v) => v,
            Err(er) => {
                return Err(er);
            },
        };
        let name = strip_lvl(name_raw.as_str());
        Ok(
            Level {
                x,
                y,
                width: (
                #[verifier::truncate]
                (width as u32)),
                height: (
                #[verifier::truncate]
                (height as u32)),
                solids,
                bg,
                name,
                c,
            },
        )
    }
}

impl Filler {
    /// Projects one filler element; see `spec_filler` for the exact
    /// contract.
    pub fn from(e: &Element) -> (r: Result<Filler, MapError>)
        ensures
            (match spec_filler(e@) {
                Ok(m) => r matches Ok(f) && f@ == m,
                Err(er) => r == Err::<Filler, MapError>(er),
            }),
    {
        let x = match int_attr(e, "x") {
            Ok(v) => v,
            Err(er) => {
                return Err(er);
            },
        };
        let y = match int_attr(e, "y") {
            Ok(v) => v,
            Err(er) => {
                return Err(er);
            },
        };
        let w = match int_attr(e, "w") {
            Ok(v) => v,
            Err(er) => {
                return Err(er);
            },
        };
        let h = match int_attr(e, "h") {
            Ok(v) => v,
            Err(er) => {
                return Err(er);
            },
        };
        Ok(
            Filler {
                x,
                y,
                w: (
                #[verifier::truncate]
                (w as u32)),
                h: (
                #[verifier::truncate]
                (h as u32)),
            },
        )
    }
}

impl Style {
    /// The style of a document: its presence is all that matters, so any
    /// element yields the one style value.
    pub fn from(_e: &Element) -> Style {
        Style {  }
    }
}

impl GameMap {
    /// Projects a decoded root element into the typed domain model; see
    /// `spec_project` for the exact contract. No partial map is ever
    /// produced: the first failure aborts the whole projection.
    #[verifier::loop_isolation(false)]
    pub fn try_from(value: &Element) -> (r: Result<GameMap, MapError>)
        ensures
            (match spec_project(value@) {
                Ok(m) => r matches Ok(g) && g@ == m,
                Err(er) => r == Err::<GameMap, MapError>(er),
            }),
    {
        let levels_node = match find_last_child(value, "levels") {
            Some(c) => c,
            None => {
                return Err(MapError::MissingRequiredNode);
            },
        };
        let ghost lm = children_models(levels_node.children@);
        proof {
            lemma_children_models(levels_node.children@);
            assert(lm.take(0) =~= Seq::<ElemModel>::empty());
        }
        let mut levels: Vec<Level> = Vec::new();
        let mut i: usize = 0;
        proof {
            assert(level_models(levels@) =~= Seq::<LevelModel>::empty());
        }
        while i < levels_node.children.len()
            invariant
                i <= levels_node.children.len(),
                spec_levels(lm.take(i as int)) == Ok::<Seq<LevelModel>, MapError>(
                    level_models(levels@),
                ),
            decreases levels_node.children.len() - i,
        {
            let child = &levels_node.children[i];
            proof {
                assert(lm.take(i + 1).drop_last() =~= lm.take(i as int));
                assert(lm.take(i + 1).last() == child@);
            }
            match Level::from(child) {
                Ok(l) => {
                    let ghost prev = levels@;
                    let ghost lv = l@;
                    levels.push(l);
                    proof {
                        assert(level_models(levels@) =~= level_models(prev).push(lv));
                    }
                },
                Err(er) => {
                    proof {
                        lemma_levels_prefix_err(lm, i + 1, er);
                    }
                    return Err(er);
                },
            }
            i = i + 1;
        }
        proof {
            assert(lm.take(levels_node.children@.len() as int) =~= lm);
        }
        let mut filler: Vec<Filler> = Vec::new();
        proof {
            assert(filler_models(filler@) =~= Seq::<FillerModel>::empty());
        }
        match find_last_child(value, "Filler") {
            None => {},
            Some(filler_node) => {
                let ghost fm = children_models(filler_node.children@);
                proof {
                    lemma_children_models(filler_node.children@);
                    assert(fm.take(0) =~= Seq::<ElemModel>::empty());
                }
                let mut j: usize = 0;
                while j < filler_node.children.len()
                    invariant
                        j <= filler_node.children.len(),
                        spec_fillers(fm.take(j as int)) == Ok::<Seq<FillerModel>, MapError>(
                            filler_models(filler@),
                        ),
                    decreases filler_node.children.len() - j,
                {
                    let child = &filler_node.children[j];
                    proof {
                        assert(fm.take(j + 1).drop_last() =~= fm.take(j as int));
                        assert(fm.take(j + 1).last() == child@);
                    }
                    match Filler::from(child) {
                        Ok(f) => {
                            let ghost prev = filler@;
                            let ghost fv = f@;
                            filler.push(f);
                            proof {
                                assert(filler_models(filler@) =~= filler_models(prev).push(fv));
                            }
                        },
                        Err(er) => {
                            proof {
                                lemma_fillers_prefix_err(fm, j + 1, er);
                            }
                            return Err(er);
                        },
                    }
                    j = j + 1;
                }
                proof {
                    assert(fm.take(filler_node.children@.len() as int) =~= fm);
                }
            },
        }
        match find_last_child(value, "Style") {
            None => {
                return Err(MapError::MissingRequiredNode);
            },
            Some(_) => {},
        }
        Ok(GameMap { levels, filler, style: Style {  } })
    }
}

} // verus!
