//! The document model: a tree of values that keeps the text of numbers and
//! strings as it stood in the source.

pub mod contained_value;
pub mod parser;
pub mod round_trip;
pub mod writer;

pub use contained_value::ContainedValue;
pub use parser::parse;

use crate::text::str_eq;
use vstd::prelude::*;
use writer::{join_lines, layout, line_text, lines_view, value_pieces, Element, ElementView, Writer};

verus! {

/// An array: its items in order, and whether it is shown collapsed.
#[derive(Debug, PartialEq, Eq)]
pub struct ValueArray {
    pub collapse: bool,
    pub arr: Vec<Value>,
}

/// An object: its members in the order of the source, duplicates kept, and
/// whether it is shown collapsed.
#[derive(Debug, PartialEq, Eq)]
pub struct ValueObject {
    pub collapse: bool,
    pub map: Vec<(String, Value)>,
}

/// A value of the document.
#[derive(Debug, PartialEq, Eq)]
pub enum Value {
    Null,
    Bool(bool),
    /// The number's text as written.
    Number(String),
    /// The text between the quotes as written, escapes not resolved.
    String(String),
    Array(ValueArray),
    Object(ValueObject),
}

/// A member of an object as a plain value.
pub struct MemberView {
    pub name: Seq<char>,
    pub value: ValueView,
}

/// A value as a plain tree.
pub enum ValueView {
    Null,
    Bool(bool),
    Number(Seq<char>),
    String(Seq<char>),
    Array { collapse: bool, items: Seq<ValueView> },
    Object { collapse: bool, members: Seq<MemberView> },
}

pub open spec fn member(name: Seq<char>, value: ValueView) -> MemberView {
    MemberView { name, value }
}

/// The tree of `v`.
pub open spec fn value_view(v: Value) -> ValueView
    decreases v, 0nat,
{
    match v {
        Value::Null => ValueView::Null,
        Value::Bool(b) => ValueView::Bool(b),
        Value::Number(s) => ValueView::Number(s@),
        Value::String(s) => ValueView::String(s@),
        Value::Array(a) => ValueView::Array {
            collapse: a.collapse,
            items: items_view(a.arr),
        },
        Value::Object(o) => ValueView::Object {
            collapse: o.collapse,
            members: members_view(o.map),
        },
    }
}

/// The trees of the items of `arr`.
pub open spec fn items_view(arr: Vec<Value>) -> Seq<ValueView>
    decreases arr, 1nat,
{
    Seq::new(arr.len() as nat, |i: int| item_view(arr, i))
}

/// The members of `map` as plain values.
pub open spec fn members_view(map: Vec<(String, Value)>) -> Seq<MemberView>
    decreases map, 1nat,
{
    Seq::new(map.len() as nat, |i: int| member_view(map, i))
}

/// The tree of the item `i` of `arr`.
pub open spec fn item_view(arr: Vec<Value>, i: int) -> ValueView
    decreases arr, 0nat,
{
    if 0 <= i < arr.len() {
        value_view(arr[i])
    } else {
        ValueView::Null
    }
}

/// The member `i` of `map` as a plain value.
pub open spec fn member_view(map: Vec<(String, Value)>, i: int) -> MemberView
    decreases map, 0nat,
{
    if 0 <= i < map.len() {
        member(map[i].0@, value_view(map[i].1))
    } else {
        member(Seq::empty(), ValueView::Null)
    }
}

impl View for Value {
    type V = ValueView;

    open spec fn view(&self) -> ValueView {
        value_view(*self)
    }
}

impl View for ValueArray {
    type V = Seq<ValueView>;

    /// The trees of the items.
    open spec fn view(&self) -> Seq<ValueView> {
        items_view(self.arr)
    }
}

impl View for ValueObject {
    type V = Seq<MemberView>;

    /// The members as plain values.
    open spec fn view(&self) -> Seq<MemberView> {
        members_view(self.map)
    }
}

/// The index of the first member at or after `from` whose name is `name`.
pub open spec fn member_index(members: Seq<MemberView>, name: Seq<char>, from: int) -> Option<int>
    decreases members.len() - from,
{
    if from < 0 || from >= members.len() {
        None
    } else if members[from].name == name {
        Some(from)
    } else {
        member_index(members, name, from + 1)
    }
}

/// The lines of `v` as a fresh writer lays them out.
pub open spec fn document(v: ValueView) -> Seq<Seq<ElementView>> {
    layout(seq![Seq::<ElementView>::empty()], value_pieces(v, 0), seq![' ', ' ', ' ', ' '])
}

impl ValueArray {
    pub fn toggle_collapse(&mut self)
        ensures
            final(self).collapse == !old(self).collapse,
            final(self).arr == old(self).arr,
    {
        self.collapse = !self.collapse;
    }

    pub fn collapse(&mut self)
        ensures
            final(self).collapse,
            final(self).arr == old(self).arr,
    {
        self.collapse = true;
    }

    pub fn expand(&mut self)
        ensures
            !final(self).collapse,
            final(self).arr == old(self).arr,
    {
        self.collapse = false;
    }

    /// The item at `idx`, if there is one.
    pub fn get(&self, idx: usize) -> (r: Option<&Value>)
        ensures
            idx < self.arr.len() ==> r == Some(&self.arr[idx as int]),
            idx >= self.arr.len() ==> r is None,
    {
        if idx < self.arr.len() {
            Some(&self.arr[idx])
        } else {
            None
        }
    }

    /// The item at `idx`, if there is one, to be changed in place.
    pub fn get_mut(&mut self, idx: usize) -> (r: Option<&mut Value>)
        ensures
            final(self).collapse == old(self).collapse,
            match r {
                Some(v) => idx < old(self).arr.len() && *v == old(self).arr[idx as int]
                    && final(self).arr@ == old(self).arr@.update(idx as int, *final(v)),
                None => idx >= old(self).arr.len() && final(self).arr == old(self).arr,
            },
    {
        if idx < self.arr.len() {
            Some(&mut self.arr[idx])
        } else {
            None
        }
    }
}

impl ValueObject {
    pub fn toggle_collapse(&mut self)
        ensures
            final(self).collapse == !old(self).collapse,
            final(self).map == old(self).map,
    {
        self.collapse = !self.collapse;
    }

    pub fn collapse(&mut self)
        ensures
            final(self).collapse,
            final(self).map == old(self).map,
    {
        self.collapse = true;
    }

    pub fn expand(&mut self)
        ensures
            !final(self).collapse,
            final(self).map == old(self).map,
    {
        self.collapse = false;
    }

    /// The index of the first member whose name is `key`.
    pub fn position(&self, key: &str) -> (r: Option<usize>)
        ensures
            match r {
                Some(i) => member_index(self@, key@, 0) == Some(i as int) && i < self.map.len(),
                None => member_index(self@, key@, 0) is None,
            },
    {
        let mut i: usize = 0;
        while i < self.map.len()
            invariant
                i <= self.map.len(),
                member_index(self@, key@, 0) == member_index(self@, key@, i as int),
            decreases self.map.len() - i,
        {
            if str_eq(self.map[i].0.as_str(), key) {
                return Some(i);
            }
            i += 1;
        }
        None
    }

    /// The value of the first member whose name is `key`.
    pub fn get(&self, key: &str) -> (r: Option<&Value>)
        ensures
            match member_index(self@, key@, 0) {
                Some(i) => 0 <= i < self.map.len() && r == Some(&self.map[i].1),
                None => r is None,
            },
    {
        match self.position(key) {
            Some(i) => Some(&self.map[i].1),
            None => None,
        }
    }

    /// The value of the first member whose name is `key`, to be changed in
    /// place.
    pub fn get_mut(&mut self, key: &str) -> (r: Option<&mut Value>)
        ensures
            final(self).collapse == old(self).collapse,
            match member_index(old(self)@, key@, 0) {
                Some(i) => 0 <= i < old(self).map.len() && r is Some && *r->0 == old(self).map[i].1
                    && final(self).map@ == old(self).map@.update(
                    i,
                    (old(self).map[i].0, *final(r->0)),
                ),
                None => r is None && final(self).map == old(self).map,
            },
    {
        match self.position(key) {
            Some(i) => Some(&mut self.map[i].1),
            None => None,
        }
    }
}

impl Value {
    pub fn is_null(&self) -> (r: bool)
        ensures
            r == (*self is Null),
    {
        matches!(self, Value::Null)
    }

    pub fn is_bool(&self) -> (r: bool)
        ensures
            r == (*self is Bool),
    {
        matches!(self, Value::Bool(_))
    }

    pub fn is_number(&self) -> (r: bool)
        ensures
            r == (*self is Number),
    {
        matches!(self, Value::Number(_))
    }

    pub fn is_string(&self) -> (r: bool)
        ensures
            r == (*self is String),
    {
        matches!(self, Value::String(_))
    }

    pub fn is_array(&self) -> (r: bool)
        ensures
            r == (*self is Array),
    {
        matches!(self, Value::Array(_))
    }

    pub fn is_object(&self) -> (r: bool)
        ensures
            r == (*self is Object),
    {
        matches!(self, Value::Object(_))
    }

    pub fn get_null(&self) -> (r: Option<()>)
        ensures
            r is Some <==> *self is Null,
    {
        match self {
            Self::Null => Some(()),
            _ => None,
        }
    }

    pub fn get_bool(&self) -> (r: Option<bool>)
        ensures
            r == (if let Value::Bool(b) = *self {
                Some(b)
            } else {
                None
            }),
    {
        match self {
            Self::Bool(x) => Some(*x),
            _ => None,
        }
    }

    /// The text of a number.
    pub fn get_number(&self) -> (r: Option<&str>)
        ensures
            match *self {
                Value::Number(s) => r is Some && r->0@ == s@,
                _ => r is None,
            },
    {
        match self {
            Self::Number(x) => Some(x.as_str()),
            _ => None,
        }
    }

    /// The text of a string.
    pub fn get_string(&self) -> (r: Option<&str>)
        ensures
            match *self {
                Value::String(s) => r is Some && r->0@ == s@,
                _ => r is None,
            },
    {
        match self {
            Self::String(x) => Some(x.as_str()),
            _ => None,
        }
    }

    pub fn as_array(&self) -> (r: Option<&ValueArray>)
        ensures
            match *self {
                Value::Array(a) => r == Some(&a),
                _ => r is None,
            },
    {
        match self {
            Self::Array(x) => Some(x),
            _ => None,
        }
    }

    pub fn as_array_mut(&mut self) -> (r: Option<&mut ValueArray>)
        ensures
            match *old(self) {
                Value::Array(a) => r is Some && *r->0 == a && *final(self) == Value::Array(
                    *final(r->0),
                ),
                _ => r is None && *final(self) == *old(self),
            },
    {
        match self {
            Self::Array(x) => Some(x),
            _ => None,
        }
    }

    pub fn as_object(&self) -> (r: Option<&ValueObject>)
        ensures
            match *self {
                Value::Object(o) => r == Some(&o),
                _ => r is None,
            },
    {
        match self {
            Self::Object(x) => Some(x),
            _ => None,
        }
    }

    pub fn as_object_mut(&mut self) -> (r: Option<&mut ValueObject>)
        ensures
            match *old(self) {
                Value::Object(o) => r is Some && *r->0 == o && *final(self) == Value::Object(
                    *final(r->0),
                ),
                _ => r is None && *final(self) == *old(self),
            },
    {
        match self {
            Self::Object(x) => Some(x),
            _ => None,
        }
    }

    /// The text of each line of the value's layout.
    pub fn lines(&self) -> (r: Vec<String>)
        ensures
            r.len() == document(self@).len(),
            forall|i: int| 0 <= i < r.len() ==> (#[trigger] r[i])@ == line_text(document(self@)[i]),
    {
        let mut writer = Writer::new();
        writer.write_value(self);
        writer.lines()
    }

    /// The lines of elements of the value's layout.
    pub fn elemnets(&self) -> (r: Vec<Vec<Element>>)
        ensures
            lines_view(r) == document(self@),
    {
        let mut writer = Writer::new();
        writer.write_value(self);
        writer.get()
    }

    /// The text of the value's layout.
    pub fn to_string(&self) -> (r: String)
        ensures
            r@ == join_lines(document(self@)),
    {
        let mut writer = Writer::new();
        writer.write_value(self);
        writer.to_string()
    }
}

/// A copy of the items `arr`.
fn clone_items(arr: &Vec<Value>) -> (r: Vec<Value>)
    ensures
        items_view(r) == items_view(*arr),
    decreases arr,
{
    let mut r: Vec<Value> = Vec::new();
    let mut i: usize = 0;
    while i < arr.len()
        invariant
            i <= arr.len(),
            r.len() == i,
            forall|j: int| 0 <= j < i ==> (#[trigger] r[j])@ == arr[j]@,
        decreases arr.len() - i,
    {
        r.push(clone_value(&arr[i]));
        i += 1;
    }
    assert(items_view(r) =~= items_view(*arr));
    r
}

/// A copy of the members `map`.
fn clone_members(map: &Vec<(String, Value)>) -> (r: Vec<(String, Value)>)
    ensures
        members_view(r) == members_view(*map),
    decreases map,
{
    let mut r: Vec<(String, Value)> = Vec::new();
    let mut i: usize = 0;
    while i < map.len()
        invariant
            i <= map.len(),
            r.len() == i,
            forall|j: int|
                0 <= j < i ==> (#[trigger] r[j]).0@ == map[j].0@ && r[j].1@ == map[j].1@,
        decreases map.len() - i,
    {
        r.push((map[i].0.clone(), clone_value(&map[i].1)));
        i += 1;
    }
    assert(members_view(r) =~= members_view(*map));
    r
}

/// A copy of `v`.
fn clone_value(v: &Value) -> (r: Value)
    ensures
        r@ == v@,
    decreases v,
{
    match v {
        Value::Null => Value::Null,
        Value::Bool(b) => Value::Bool(*b),
        Value::Number(s) => Value::Number(s.clone()),
        Value::String(s) => Value::String(s.clone()),
        Value::Array(a) => Value::Array(
            ValueArray { collapse: a.collapse, arr: clone_items(&a.arr) },
        ),
        Value::Object(o) => Value::Object(
            ValueObject { collapse: o.collapse, map: clone_members(&o.map) },
        ),
    }
}

impl Clone for Value {
    fn clone(&self) -> (r: Self)
        ensures
            r@ == self@,
    {
        clone_value(self)
    }
}

impl Clone for ValueArray {
    fn clone(&self) -> (r: Self)
        ensures
            r@ == self@,
            r.collapse == self.collapse,
    {
        ValueArray { collapse: self.collapse, arr: clone_items(&self.arr) }
    }
}

impl Clone for ValueObject {
    fn clone(&self) -> (r: Self)
        ensures
            r@ == self@,
            r.collapse == self.collapse,
    {
        ValueObject { collapse: self.collapse, map: clone_members(&self.map) }
    }
}

} // verus!
