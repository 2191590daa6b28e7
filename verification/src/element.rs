use vstd::prelude::*;

use crate::model::{attrs_map, AttrModel, ElemModel, ValueModel};

verus! {

broadcast use vstd::std_specs::vec::group_vec_axioms, vstd::seq::group_seq_axioms;

/// One tagged attribute value, immutable once constructed.
///
/// Integers are 32-bit signed regardless of their width on the wire. A
/// 32-bit IEEE-754 value is carried as its raw bit pattern, so that every
/// field of the tree is a plain value.
#[derive(Debug, PartialEq)]
pub enum Value {
    Bool(bool),
    Int(i32),
    /// The raw bit pattern of a 32-bit IEEE-754 value.
    Float(u32),
    Str(String),
}

impl View for Value {
    type V = ValueModel;

    open spec fn view(&self) -> ValueModel {
        match self {
            Value::Bool(b) => ValueModel::Bool(*b),
            Value::Int(v) => ValueModel::Int(*v),
            Value::Float(bits) => ValueModel::FloatBits(*bits),
            Value::Str(s) => ValueModel::Str(s@),
        }
    }
}

impl Value {
    /// The boolean this value holds, if it is a boolean.
    pub fn as_bool(&self) -> (r: Option<bool>)
        ensures
            r == (match self@ {
                ValueModel::Bool(b) => Some(b),
                _ => None::<bool>,
            }),
    {
        match self {
            Value::Bool(v) => Some(*v),
            _ => None,
        }
    }

    /// The integer this value holds, if it is an integer.
    pub fn as_int(&self) -> (r: Option<i32>)
        ensures
            r == (match self@ {
                ValueModel::Int(v) => Some(v),
                _ => None::<i32>,
            }),
    {
        match self {
            Value::Int(v) => Some(*v),
            _ => None,
        }
    }

    /// The raw IEEE-754 bit pattern this value holds, if it is a float.
    pub fn as_float_bits(&self) -> (r: Option<u32>)
        ensures
            r == (match self@ {
                ValueModel::FloatBits(bits) => Some(bits),
                _ => None::<u32>,
            }),
    {
        match self {
            Value::Float(v) => Some(*v),
            _ => None,
        }
    }

    /// The text this value holds, if it is text.
    pub fn as_str(&self) -> (r: Option<&str>)
        ensures
            (match r {
                Some(s) => self@ == ValueModel::Str(s@),
                None => !(self@ is Str),
            }),
    {
        match self {
            Value::Str(v) => Some(v.as_str()),
            _ => None,
        }
    }
}

/// One attribute of an element: a key and a value.
#[derive(Debug, PartialEq)]
pub struct Attr {
    pub key: String,
    pub value: Value,
}

impl View for Attr {
    type V = AttrModel;

    open spec fn view(&self) -> AttrModel {
        AttrModel { key: self.key@, value: self.value@ }
    }
}

/// A named node with attributes and ordered children: the generic decoded
/// form of a document, a pure owning tree.
///
/// Attributes are kept in the order they were decoded; of two entries with
/// an equal key the later one shadows the earlier, which is how a repeated
/// key on the wire is resolved.
#[derive(Debug, PartialEq)]
pub struct Element {
    pub name: String,
    pub attributes: Vec<Attr>,
    pub children: Vec<Element>,
}

/// The attribute list of an element, as the sequence of its models.
pub open spec fn attr_models(attributes: Seq<Attr>) -> Seq<AttrModel> {
    Seq::new(attributes.len(), |i: int| attributes[i]@)
}

/// The models of a sequence of elements, in order.
pub open spec fn children_models(s: Seq<Element>) -> Seq<ElemModel>
    decreases s,
{
    if s.len() == 0 {
        Seq::empty()
    } else {
        children_models(s.drop_last()).push(s.last()@)
    }
}

impl View for Element {
    type V = ElemModel;

    open spec fn view(&self) -> ElemModel
        decreases self,
    {
        ElemModel {
            name: self.name@,
            attrs: attrs_map(attr_models(self.attributes@)),
            children: children_models(self.children@),
        }
    }
}

/// `children_models` is the element-wise model of its argument.
pub proof fn lemma_children_models(s: Seq<Element>)
    ensures
        children_models(s).len() == s.len(),
        forall|i: int| 0 <= i < s.len() ==> children_models(s)[i] == #[trigger] s[i]@,
    decreases s.len(),
{
    if s.len() > 0 {
        lemma_children_models(s.drop_last());
        let tail = children_models(s.drop_last());
        assert(children_models(s) == tail.push(s.last()@));
        assert forall|i: int| 0 <= i < s.len() implies children_models(s)[i] == #[trigger] s[i]@ by {
            if i < s.len() - 1 {
                assert(tail.push(s.last()@)[i] == tail[i]);
                assert(s.drop_last()[i] == s[i]);
            } else {
                assert(tail.push(s.last()@)[i] == s.last()@);
            }
        }
    }
}

impl Element {
    /// The value stored under `key`; with a repeated key the later
    /// occurrence wins.
    #[verifier::loop_isolation(false)]
    pub fn get_attr(&self, key: &str) -> (r: Option<&Value>)
        ensures
            (match r {
                Some(v) => self@.attrs.contains_key(key@) && v@ == self@.attrs[key@],
                None => !self@.attrs.contains_key(key@),
            }),
    {
        let key_s = String::from_str(key);
        let ghost entries = attr_models(self.attributes@);
        let mut idx = self.attributes.len();
        proof {
            assert(entries.take(idx as int) =~= entries);
        }
        while idx > 0
            invariant
                idx <= self.attributes.len(),
                attrs_map(entries).contains_key(key@) == attrs_map(
                    entries.take(idx as int),
                ).contains_key(key@),
                attrs_map(entries).contains_key(key@) ==> attrs_map(entries)[key@] == attrs_map(
                    entries.take(idx as int),
                )[key@],
            decreases idx,
        {
            let a = &self.attributes[idx - 1];
            if a.key == key_s {
                proof {
                    assert(entries.take(idx as int).last() == a@);
                    assert(entries.take(idx as int).drop_last() =~= entries.take(idx - 1));
                }
                return Some(&a.value);
            }
            proof {
                assert(entries.take(idx as int).last() == a@);
                crate::model::lemma_attrs_map_skip(entries.take(idx as int), key@);
                assert(entries.take(idx as int).drop_last() =~= entries.take(idx - 1));
            }
            idx = idx - 1;
        }
        proof {
            assert(entries.take(0) =~= Seq::<AttrModel>::empty());
        }
        None
    }
}

} // verus!
