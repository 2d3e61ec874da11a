//! The built-in operations and the triggers that they make.
//!
//! Every built-in operation makes one kind of trigger. An operation
//! takes its arguments in a fixed order, and each argument becomes the
//! property of the trigger under a fixed key.

use vstd::prelude::*;
use vstd::string::*;
use crate::number::{Number, NumberView};

verus! {

/// The kinds of trigger. The first six are made by the operations that
/// a program invokes; the last three wire a block to an event of the
/// level.
#[derive(Clone, Copy, Debug, PartialEq, Eq, Structural)]
pub enum TriggerKind {
    Move,
    Stop,
    Toggle,
    Spawn,
    Alpha,
    Pickup,
    Touch,
    Collision,
    Count,
}

/// The key under which a trigger names what it acts on.
pub const TARGET: u16 = 51;

/// The key under which a trigger names the reaction that it belongs to.
pub const OWNER: u16 = 57;

/// The key that marks a trigger as fired by its reaction only.
pub const FIRED: u16 = 62;

/// Whether triggers of this kind wire a block to an event.
pub open spec fn is_event(kind: TriggerKind) -> bool {
    kind == TriggerKind::Touch || kind == TriggerKind::Collision || kind == TriggerKind::Count
}

/// The number by which the level names objects of this kind.
pub open spec fn object_id(kind: TriggerKind) -> u16 {
    match kind {
        TriggerKind::Move => 901,
        TriggerKind::Stop => 1616,
        TriggerKind::Toggle => 1049,
        TriggerKind::Spawn => 1268,
        TriggerKind::Alpha => 1007,
        TriggerKind::Pickup => 1817,
        TriggerKind::Touch => 1595,
        TriggerKind::Collision => 1815,
        TriggerKind::Count => 1611,
    }
}

/// The name by which a program invokes the operation.
pub open spec fn name_of(kind: TriggerKind) -> Seq<char> {
    match kind {
        TriggerKind::Move => seq!['m', 'o', 'v', 'e'],
        TriggerKind::Stop => seq!['s', 't', 'o', 'p'],
        TriggerKind::Toggle => seq!['t', 'o', 'g', 'g', 'l', 'e'],
        TriggerKind::Spawn => seq!['s', 'p', 'a', 'w', 'n'],
        TriggerKind::Alpha => seq!['a', 'l', 'p', 'h', 'a'],
        TriggerKind::Pickup => seq!['p', 'i', 'c', 'k', 'u', 'p'],
        TriggerKind::Touch => seq!['t', 'o', 'u', 'c', 'h'],
        TriggerKind::Collision => seq!['c', 'o', 'l', 'l', 'i', 's', 'i', 'o', 'n'],
        TriggerKind::Count => seq!['c', 'o', 'u', 'n', 't'],
    }
}

/// The keys that the arguments of the operation go under, in the order
/// of the arguments.
pub open spec fn parameters(kind: TriggerKind) -> Seq<u16> {
    match kind {
        TriggerKind::Move => seq![51u16, 28u16, 29u16, 10u16],
        TriggerKind::Stop => seq![51u16],
        TriggerKind::Toggle => seq![51u16, 56u16],
        TriggerKind::Spawn => seq![51u16, 63u16],
        TriggerKind::Alpha => seq![51u16, 35u16, 10u16],
        TriggerKind::Pickup => seq![80u16, 77u16],
        TriggerKind::Touch => Seq::<u16>::empty(),
        TriggerKind::Collision => seq![80u16, 95u16],
        TriggerKind::Count => seq![80u16, 77u16],
    }
}

/// The keys that a trigger of this kind is written out with, in the
/// order in which they are written.
pub open spec fn key_order(kind: TriggerKind) -> Seq<u16> {
    match kind {
        TriggerKind::Move => seq![10u16, 28u16, 29u16, 51u16],
        TriggerKind::Stop => seq![51u16],
        TriggerKind::Toggle => seq![51u16, 56u16],
        TriggerKind::Spawn => seq![51u16, 63u16],
        TriggerKind::Alpha => seq![10u16, 35u16, 51u16],
        TriggerKind::Pickup => seq![77u16, 80u16],
        TriggerKind::Touch => seq![51u16],
        TriggerKind::Collision => seq![51u16, 80u16, 95u16],
        TriggerKind::Count => seq![51u16, 77u16, 80u16],
    }
}

/// The operation that a program invokes by `name`, if there is one.
pub open spec fn action_named(name: Seq<char>) -> Option<TriggerKind> {
    if name == name_of(TriggerKind::Move) {
        Some(TriggerKind::Move)
    } else if name == name_of(TriggerKind::Stop) {
        Some(TriggerKind::Stop)
    } else if name == name_of(TriggerKind::Toggle) {
        Some(TriggerKind::Toggle)
    } else if name == name_of(TriggerKind::Spawn) {
        Some(TriggerKind::Spawn)
    } else if name == name_of(TriggerKind::Alpha) {
        Some(TriggerKind::Alpha)
    } else if name == name_of(TriggerKind::Pickup) {
        Some(TriggerKind::Pickup)
    } else {
        None
    }
}

/// The event that a program names by `name`, if there is one.
pub open spec fn event_named(name: Seq<char>) -> Option<TriggerKind> {
    if name == name_of(TriggerKind::Touch) {
        Some(TriggerKind::Touch)
    } else if name == name_of(TriggerKind::Collision) {
        Some(TriggerKind::Collision)
    } else if name == name_of(TriggerKind::Count) {
        Some(TriggerKind::Count)
    } else {
        None
    }
}

/// A value as a trigger holds it.
#[derive(Debug, PartialEq, Eq)]
pub enum PropertyValue {
    Number(Number),
    Bool(bool),
    Id(u64),
}

/// The mathematical content of a [`PropertyValue`].
pub ghost enum PropertyValueView {
    Number(NumberView),
    Bool(bool),
    Id(nat),
}

impl View for PropertyValue {
    type V = PropertyValueView;

    open spec fn view(&self) -> PropertyValueView {
        match self {
            PropertyValue::Number(n) => PropertyValueView::Number(n@),
            PropertyValue::Bool(b) => PropertyValueView::Bool(*b),
            PropertyValue::Id(n) => PropertyValueView::Id(*n as nat),
        }
    }
}

impl Clone for PropertyValue {
    fn clone(&self) -> (r: PropertyValue)
        ensures
            r@ == self@,
    {
        match self {
            PropertyValue::Number(n) => PropertyValue::Number(n.clone()),
            PropertyValue::Bool(b) => PropertyValue::Bool(*b),
            PropertyValue::Id(n) => PropertyValue::Id(*n),
        }
    }
}

/// One property of a trigger: a key and the value under it.
#[derive(Debug, PartialEq, Eq)]
pub struct Property {
    pub key: u16,
    pub value: PropertyValue,
}

/// The mathematical content of a [`Property`].
pub ghost struct PropertyView {
    pub key: u16,
    pub value: PropertyValueView,
}

impl View for Property {
    type V = PropertyView;

    open spec fn view(&self) -> PropertyView {
        PropertyView { key: self.key, value: self.value@ }
    }
}

/// The views of a sequence of property values.
pub open spec fn values_view(s: Seq<PropertyValue>) -> Seq<PropertyValueView> {
    Seq::new(s.len(), |i: int| s[i]@)
}

/// The views of a sequence of properties.
pub open spec fn properties_view(s: Seq<Property>) -> Seq<PropertyView> {
    Seq::new(s.len(), |i: int| s[i]@)
}

/// One object of the level: its kind, its properties, and the reaction
/// that fires it, if it is not fired where it stands.
#[derive(Debug, PartialEq, Eq)]
pub struct Trigger {
    pub kind: TriggerKind,
    pub properties: Vec<Property>,
    pub owner: Option<u64>,
}

/// The mathematical content of a [`Trigger`].
pub ghost struct TriggerView {
    pub kind: TriggerKind,
    pub properties: Seq<PropertyView>,
    pub owner: Option<nat>,
}

/// The mathematical content of the reaction of a trigger.
pub open spec fn owner_view(owner: Option<u64>) -> Option<nat> {
    match owner {
        Some(o) => Some(o as nat),
        None => None,
    }
}

impl View for Trigger {
    type V = TriggerView;

    open spec fn view(&self) -> TriggerView {
        TriggerView {
            kind: self.kind,
            properties: properties_view(self.properties@),
            owner: owner_view(self.owner),
        }
    }
}

/// The views of a sequence of triggers.
pub open spec fn triggers_view(s: Seq<Trigger>) -> Seq<TriggerView> {
    Seq::new(s.len(), |i: int| s[i]@)
}

/// The properties that an operation makes of its arguments: the value
/// at each place under the key of that place.
pub open spec fn properties_of(keys: Seq<u16>, values: Seq<PropertyValueView>) -> Seq<
    PropertyView,
> {
    Seq::new(keys.len(), |i: int| PropertyView { key: keys[i], value: values[i] })
}

/// The name by which a program invokes the operation.
pub fn kind_name(kind: TriggerKind) -> (name: String)
    ensures
        name@ == name_of(kind),
{
    proof {
        reveal_strlit("move");
        reveal_strlit("stop");
        reveal_strlit("toggle");
        reveal_strlit("spawn");
        reveal_strlit("alpha");
        reveal_strlit("pickup");
        reveal_strlit("touch");
        reveal_strlit("collision");
        reveal_strlit("count");
    }
    let name = match kind {
        TriggerKind::Move => String::from_str("move"),
        TriggerKind::Stop => String::from_str("stop"),
        TriggerKind::Toggle => String::from_str("toggle"),
        TriggerKind::Spawn => String::from_str("spawn"),
        TriggerKind::Alpha => String::from_str("alpha"),
        TriggerKind::Pickup => String::from_str("pickup"),
        TriggerKind::Touch => String::from_str("touch"),
        TriggerKind::Collision => String::from_str("collision"),
        TriggerKind::Count => String::from_str("count"),
    };
    assert(name@ =~= name_of(kind));
    name
}

/// Whether triggers of this kind wire a block to an event.
pub fn kind_is_event(kind: TriggerKind) -> (r: bool)
    ensures
        r == is_event(kind),
{
    match kind {
        TriggerKind::Touch => true,
        TriggerKind::Collision => true,
        TriggerKind::Count => true,
        _ => false,
    }
}

/// The number by which the level names objects of this kind.
pub fn kind_object_id(kind: TriggerKind) -> (id: u16)
    ensures
        id == object_id(kind),
{
    match kind {
        TriggerKind::Move => 901,
        TriggerKind::Stop => 1616,
        TriggerKind::Toggle => 1049,
        TriggerKind::Spawn => 1268,
        TriggerKind::Alpha => 1007,
        TriggerKind::Pickup => 1817,
        TriggerKind::Touch => 1595,
        TriggerKind::Collision => 1815,
        TriggerKind::Count => 1611,
    }
}

/// The keys that the arguments of the operation go under.
pub fn kind_parameters(kind: TriggerKind) -> (keys: Vec<u16>)
    ensures
        keys@ == parameters(kind),
{
    let keys: Vec<u16> = match kind {
        TriggerKind::Move => vec![51, 28, 29, 10],
        TriggerKind::Stop => vec![51],
        TriggerKind::Toggle => vec![51, 56],
        TriggerKind::Spawn => vec![51, 63],
        TriggerKind::Alpha => vec![51, 35, 10],
        TriggerKind::Pickup => vec![80, 77],
        TriggerKind::Touch => Vec::new(),
        TriggerKind::Collision => vec![80, 95],
        TriggerKind::Count => vec![80, 77],
    };
    assert(keys@ =~= parameters(kind));
    keys
}

/// The keys that a trigger of this kind is written out with.
pub fn kind_key_order(kind: TriggerKind) -> (keys: Vec<u16>)
    ensures
        keys@ == key_order(kind),
{
    let keys: Vec<u16> = match kind {
        TriggerKind::Move => vec![10, 28, 29, 51],
        TriggerKind::Stop => vec![51],
        TriggerKind::Toggle => vec![51, 56],
        TriggerKind::Spawn => vec![51, 63],
        TriggerKind::Alpha => vec![10, 35, 51],
        TriggerKind::Pickup => vec![77, 80],
        TriggerKind::Touch => vec![51],
        TriggerKind::Collision => vec![51, 80, 95],
        TriggerKind::Count => vec![51, 77, 80],
    };
    assert(keys@ =~= key_order(kind));
    keys
}

/// Looks up the operation that a program invokes by `name`.
pub fn find_action(name: &String) -> (r: Option<TriggerKind>)
    ensures
        r == action_named(name@),
{
    if *name == kind_name(TriggerKind::Move) {
        Some(TriggerKind::Move)
    } else if *name == kind_name(TriggerKind::Stop) {
        Some(TriggerKind::Stop)
    } else if *name == kind_name(TriggerKind::Toggle) {
        Some(TriggerKind::Toggle)
    } else if *name == kind_name(TriggerKind::Spawn) {
        Some(TriggerKind::Spawn)
    } else if *name == kind_name(TriggerKind::Alpha) {
        Some(TriggerKind::Alpha)
    } else if *name == kind_name(TriggerKind::Pickup) {
        Some(TriggerKind::Pickup)
    } else {
        None
    }
}

/// Looks up the event that a program names by `name`.
pub fn find_event(name: &String) -> (r: Option<TriggerKind>)
    ensures
        r == event_named(name@),
{
    if *name == kind_name(TriggerKind::Touch) {
        Some(TriggerKind::Touch)
    } else if *name == kind_name(TriggerKind::Collision) {
        Some(TriggerKind::Collision)
    } else if *name == kind_name(TriggerKind::Count) {
        Some(TriggerKind::Count)
    } else {
        None
    }
}

} // verus!
