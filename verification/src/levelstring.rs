//! The level string: how triggers are written out.
//!
//! A trigger is written as `1`, the number of its kind, and then its
//! properties as key and value, all separated by commas and closed by a
//! semicolon. The properties come in the order that the kind fixes,
//! whatever their order in the trigger. A level string is the triggers
//! one after the other.

use vstd::prelude::*;
use vstd::string::*;
use crate::native::{
    key_order, kind_key_order, kind_object_id, object_id, properties_view, triggers_view,
    Property, PropertyValue, PropertyValueView, PropertyView, Trigger, TriggerView, FIRED, OWNER,
};
use crate::number::number_text;
use crate::text::{decimal_text, push_decimal};

verus! {

/// A trigger that cannot be written out: it lacks a property that its
/// kind is written with.
#[derive(Clone, Copy, Debug, PartialEq, Eq, Structural)]
pub struct MalformedTrigger {
    /// The place of the trigger among those to be written.
    pub position: usize,
    /// The first key, in the order of the kind, that it lacks.
    pub key: u16,
}

/// The value of the first property from place `from` on that has the
/// key `key`.
pub open spec fn find_property(props: Seq<PropertyView>, key: u16, from: int) -> Option<
    PropertyValueView,
>
    decreases props.len() - from,
{
    if from < 0 || from >= props.len() {
        None
    } else if props[from].key == key {
        Some(props[from].value)
    } else {
        find_property(props, key, from + 1)
    }
}

/// How a value is written: a number in plain decimal, an identifier as
/// its number, a truth value as `1` or `0`.
pub open spec fn value_text(value: PropertyValueView) -> Seq<char> {
    match value {
        PropertyValueView::Number(n) => number_text(n),
        PropertyValueView::Bool(b) => if b {
            seq!['1']
        } else {
            seq!['0']
        },
        PropertyValueView::Id(n) => decimal_text(n),
    }
}

/// How a property is written: a comma, the key, a comma, the value.
pub open spec fn field_text(key: u16, value: PropertyValueView) -> Seq<char> {
    seq![','] + decimal_text(key as nat) + seq![','] + value_text(value)
}

/// The properties of the keys `keys`, written in that order; or the
/// first of the keys that no property has.
pub open spec fn fields_text(props: Seq<PropertyView>, keys: Seq<u16>) -> Result<Seq<char>, u16>
    decreases keys.len(),
{
    if keys.len() == 0 {
        Ok(Seq::empty())
    } else {
        match fields_text(props, keys.drop_last()) {
            Err(key) => Err(key),
            Ok(front) => match find_property(props, keys.last(), 0) {
                None => Err(keys.last()),
                Some(value) => Ok(front + field_text(keys.last(), value)),
            },
        }
    }
}

/// How the reaction that fires a trigger is written: nothing for a
/// trigger that is fired where it stands.
pub open spec fn owner_text(owner: Option<nat>) -> Seq<char> {
    match owner {
        None => Seq::empty(),
        Some(place) => field_text(OWNER, PropertyValueView::Id(place)) + field_text(
            FIRED,
            PropertyValueView::Bool(true),
        ),
    }
}

/// How a trigger is written, or the first key that it lacks.
pub open spec fn trigger_text(t: TriggerView) -> Result<Seq<char>, u16> {
    match fields_text(t.properties, key_order(t.kind)) {
        Err(key) => Err(key),
        Ok(fields) => Ok(
            seq!['1', ','] + decimal_text(object_id(t.kind) as nat) + fields + owner_text(t.owner)
                + seq![';'],
        ),
    }
}

/// How triggers are written, one after the other; or the first of them
/// that cannot be written.
pub open spec fn level_text(triggers: Seq<TriggerView>) -> Result<Seq<char>, MalformedTrigger>
    decreases triggers.len(),
{
    if triggers.len() == 0 {
        Ok(Seq::empty())
    } else {
        match level_text(triggers.drop_last()) {
            Err(e) => Err(e),
            Ok(front) => match trigger_text(triggers.last()) {
                Err(key) => Err(
                    MalformedTrigger { position: (triggers.len() - 1) as usize, key },
                ),
                Ok(text) => Ok(front + text),
            },
        }
    }
}

/// No trigger is written as the empty string.
pub proof fn lemma_no_trigger_no_text()
    ensures
        level_text(Seq::<TriggerView>::empty()) == Ok::<Seq<char>, MalformedTrigger>(
            Seq::<char>::empty(),
        ),
{
}

/// Triggers written one after the other are the first ones written,
/// followed by the others written: the level string keeps the order of
/// the triggers.
pub proof fn lemma_level_text_concat(front: Seq<TriggerView>, back: Seq<TriggerView>)
    requires
        level_text(front) is Ok,
        level_text(back) is Ok,
    ensures
        level_text(front + back) == Ok::<Seq<char>, MalformedTrigger>(
            level_text(front)->Ok_0 + level_text(back)->Ok_0,
        ),
    decreases back.len(),
{
    if back.len() == 0 {
        assert(front + back =~= front);
        assert(level_text(front)->Ok_0 + level_text(back)->Ok_0 =~= level_text(front)->Ok_0);
    } else {
        assert((front + back).drop_last() =~= front + back.drop_last());
        assert((front + back).last() == back.last());
        lemma_level_text_concat(front, back.drop_last());
        let a = level_text(front)->Ok_0;
        let b = level_text(back.drop_last())->Ok_0;
        let c = trigger_text(back.last())->Ok_0;
        assert((a + b) + c =~= a + (b + c));
    }
}

/// A key that is missing among the first `k` keys is the one that is
/// missing among all.
proof fn lemma_fields_missing(props: Seq<PropertyView>, keys: Seq<u16>, k: int)
    requires
        0 <= k <= keys.len(),
        fields_text(props, keys.take(k)) is Err,
    ensures
        fields_text(props, keys) == fields_text(props, keys.take(k)),
    decreases keys.len() - k,
{
    if k == keys.len() {
        assert(keys.take(k) =~= keys);
    } else {
        assert(keys.take(k + 1).drop_last() =~= keys.take(k));
        lemma_fields_missing(props, keys, k + 1);
    }
}

/// A trigger among the first `k` that cannot be written is the one
/// that stops the writing of all.
proof fn lemma_level_malformed(triggers: Seq<TriggerView>, k: int)
    requires
        0 <= k <= triggers.len(),
        level_text(triggers.take(k)) is Err,
    ensures
        level_text(triggers) == level_text(triggers.take(k)),
    decreases triggers.len() - k,
{
    if k == triggers.len() {
        assert(triggers.take(k) =~= triggers);
    } else {
        assert(triggers.take(k + 1).drop_last() =~= triggers.take(k));
        lemma_level_malformed(triggers, k + 1);
    }
}

/// Looks up the value of the first property with the key `key`.
pub fn lookup_property<'a>(props: &'a Vec<Property>, key: u16) -> (r: Option<&'a PropertyValue>)
    ensures
        match r {
            Some(v) => find_property(properties_view(props@), key, 0) == Some(v@),
            None => find_property(properties_view(props@), key, 0).is_none(),
        },
{
    let ghost views = properties_view(props@);
    let mut i: usize = 0;
    while i < props.len()
        invariant
            i <= props.len(),
            views == properties_view(props@),
            find_property(views, key, i as int) == find_property(views, key, 0),
        decreases props.len() - i,
    {
        if props[i].key == key {
            return Some(&props[i].value);
        }
        i = i + 1;
    }
    None
}

/// Appends a value, as it is written, to `out`.
pub fn write_value(out: &mut String, value: &PropertyValue)
    ensures
        final(out)@ == old(out)@ + value_text(value@),
{
    match value {
        PropertyValue::Number(n) => n.write(out),
        PropertyValue::Bool(b) => {
            proof {
                reveal_strlit("1");
                reveal_strlit("0");
            }
            if *b {
                out.append("1");
            } else {
                out.append("0");
            }
            assert(final(out)@ =~= old(out)@ + value_text(value@));
        },
        PropertyValue::Id(n) => push_decimal(out, *n),
    }
}

/// Appends a property, as it is written, to `out`.
pub fn write_field(out: &mut String, key: u16, value: &PropertyValue)
    ensures
        final(out)@ == old(out)@ + field_text(key, value@),
{
    proof {
        reveal_strlit(",");
    }
    out.append(",");
    push_decimal(out, key as u64);
    out.append(",");
    write_value(out, value);
    assert(final(out)@ =~= old(out)@ + field_text(key, value@));
}

/// Writes a trigger out.
pub fn serialize_trigger(trigger: &Trigger) -> (r: Result<String, MalformedTrigger>)
    ensures
        match r {
            Ok(text) => trigger_text(trigger@) == Ok::<Seq<char>, u16>(text@),
            Err(e) => trigger_text(trigger@) == Err::<Seq<char>, u16>(e.key) && e.position == 0,
        },
{
    proof {
        reveal_strlit("1,");
        reveal_strlit(";");
    }
    let mut out = String::new();
    out.append("1,");
    push_decimal(&mut out, kind_object_id(trigger.kind) as u64);
    let ghost head = out@;
    let ghost props = trigger@.properties;
    let keys = kind_key_order(trigger.kind);
    let ghost fields = Seq::<char>::empty();
    let mut i: usize = 0;
    assert(keys@.take(0) =~= Seq::<u16>::empty());
    assert(out@ =~= head + fields);
    while i < keys.len()
        invariant
            i <= keys.len(),
            props == properties_view(trigger.properties@),
            keys@ == key_order(trigger.kind),
            fields_text(props, keys@.take(i as int)) == Ok::<Seq<char>, u16>(fields),
            out@ == head + fields,
        decreases keys.len() - i,
    {
        proof {
            assert(keys@.take(i + 1).drop_last() =~= keys@.take(i as int));
            assert(keys@.take(i + 1).last() == keys[i as int]);
        }
        match lookup_property(&trigger.properties, keys[i]) {
            None => {
                proof {
                    lemma_fields_missing(props, keys@, i + 1);
                }
                return Err(MalformedTrigger { position: 0, key: keys[i] });
            },
            Some(value) => {
                write_field(&mut out, keys[i], value);
                proof {
                    fields = fields + field_text(keys[i as int], value@);
                    assert(out@ =~= head + fields);
                }
            },
        }
        i = i + 1;
    }
    assert(keys@.take(i as int) =~= keys@);
    match trigger.owner {
        None => {},
        Some(place) => {
            write_field(&mut out, OWNER, &PropertyValue::Id(place));
            write_field(&mut out, FIRED, &PropertyValue::Bool(true));
        },
    }
    out.append(";");
    assert(out@ =~= seq!['1', ','] + decimal_text(object_id(trigger.kind) as nat) + fields
        + owner_text(trigger@.owner) + seq![';']);
    Ok(out)
}

/// Writes triggers out, one after the other.
pub fn serialize(triggers: &Vec<Trigger>) -> (r: Result<String, MalformedTrigger>)
    ensures
        match r {
            Ok(text) => level_text(triggers_view(triggers@)) == Ok::<
                Seq<char>,
                MalformedTrigger,
            >(text@),
            Err(e) => level_text(triggers_view(triggers@)) == Err::<Seq<char>, MalformedTrigger>(
                e,
            ),
        },
{
    let ghost views = triggers_view(triggers@);
    let mut out = String::new();
    let mut i: usize = 0;
    assert(views.take(0) =~= Seq::<TriggerView>::empty());
    while i < triggers.len()
        invariant
            i <= triggers.len(),
            views == triggers_view(triggers@),
            level_text(views.take(i as int)) == Ok::<Seq<char>, MalformedTrigger>(out@),
        decreases triggers.len() - i,
    {
        proof {
            assert(views.take(i + 1).drop_last() =~= views.take(i as int));
            assert(views.take(i + 1).last() == triggers[i as int]@);
        }
        match serialize_trigger(&triggers[i]) {
            Err(e) => {
                proof {
                    lemma_level_malformed(views, i + 1);
                }
                return Err(MalformedTrigger { position: i, key: e.key });
            },
            Ok(text) => {
                out.append(text.as_str());
            },
        }
        i = i + 1;
    }
    assert(views.take(i as int) =~= views);
    Ok(out)
}

} // verus!
