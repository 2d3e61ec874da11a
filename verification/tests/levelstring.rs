use spwn_lang::levelstring::{serialize, serialize_trigger, MalformedTrigger};
use spwn_lang::native::{Property, PropertyValue, Trigger, TriggerKind};
use spwn_lang::number::Number;

fn number(text: &str) -> PropertyValue {
    PropertyValue::Number(Number::parse(text).unwrap())
}

fn property(key: u16, value: PropertyValue) -> Property {
    Property { key, value }
}

#[test]
fn no_trigger_is_the_empty_string() {
    assert_eq!(serialize(&vec![]), Ok(String::new()));
}

#[test]
fn move_is_written_in_the_order_of_its_kind() {
    let trigger = Trigger {
        kind: TriggerKind::Move,
        properties: vec![
            property(51, PropertyValue::Id(7)),
            property(28, number("10")),
            property(29, number("-2.50")),
            property(10, number("0.5")),
        ],
        owner: None,
    };
    assert_eq!(serialize_trigger(&trigger), Ok("1,901,10,0.5,28,10,29,-2.5,51,7;".to_string()));
}

#[test]
fn truth_values_are_written_as_one_and_zero() {
    let on = Trigger {
        kind: TriggerKind::Toggle,
        properties: vec![
            property(56, PropertyValue::Bool(true)),
            property(51, PropertyValue::Id(2)),
        ],
        owner: None,
    };
    let off = Trigger {
        kind: TriggerKind::Toggle,
        properties: vec![
            property(51, PropertyValue::Id(2)),
            property(56, PropertyValue::Bool(false)),
        ],
        owner: None,
    };
    assert_eq!(serialize_trigger(&on), Ok("1,1049,51,2,56,1;".to_string()));
    assert_eq!(serialize_trigger(&off), Ok("1,1049,51,2,56,0;".to_string()));
}

#[test]
fn owned_trigger_names_its_reaction() {
    let trigger = Trigger {
        kind: TriggerKind::Stop,
        properties: vec![property(51, PropertyValue::Id(12))],
        owner: Some(3),
    };
    assert_eq!(serialize_trigger(&trigger), Ok("1,1616,51,12,57,3,62,1;".to_string()));
}

#[test]
fn first_property_of_a_key_is_the_one_written() {
    let trigger = Trigger {
        kind: TriggerKind::Stop,
        properties: vec![
            property(51, PropertyValue::Id(1)),
            property(9, PropertyValue::Id(5)),
            property(51, PropertyValue::Id(2)),
        ],
        owner: None,
    };
    assert_eq!(serialize_trigger(&trigger), Ok("1,1616,51,1;".to_string()));
}

#[test]
fn triggers_follow_each_other_without_a_separator() {
    let triggers = vec![
        Trigger {
            kind: TriggerKind::Touch,
            properties: vec![property(51, PropertyValue::Id(0))],
            owner: None,
        },
        Trigger {
            kind: TriggerKind::Pickup,
            properties: vec![
                property(80, PropertyValue::Id(4)),
                property(77, number("1")),
            ],
            owner: Some(0),
        },
    ];
    assert_eq!(serialize(&triggers), Ok("1,1595,51,0;1,1817,77,1,80,4,57,0,62,1;".to_string()));
}

#[test]
fn every_kind_has_its_number_and_order() {
    let all = |kind: TriggerKind| Trigger {
        kind,
        properties: vec![
            property(10, PropertyValue::Id(10)),
            property(28, PropertyValue::Id(28)),
            property(29, PropertyValue::Id(29)),
            property(35, PropertyValue::Id(35)),
            property(51, PropertyValue::Id(51)),
            property(56, PropertyValue::Id(56)),
            property(63, PropertyValue::Id(63)),
            property(77, PropertyValue::Id(77)),
            property(80, PropertyValue::Id(80)),
            property(95, PropertyValue::Id(95)),
        ],
        owner: None,
    };
    let written = |kind: TriggerKind| serialize_trigger(&all(kind)).unwrap();
    assert_eq!(written(TriggerKind::Move), "1,901,10,10,28,28,29,29,51,51;");
    assert_eq!(written(TriggerKind::Stop), "1,1616,51,51;");
    assert_eq!(written(TriggerKind::Toggle), "1,1049,51,51,56,56;");
    assert_eq!(written(TriggerKind::Spawn), "1,1268,51,51,63,63;");
    assert_eq!(written(TriggerKind::Alpha), "1,1007,10,10,35,35,51,51;");
    assert_eq!(written(TriggerKind::Pickup), "1,1817,77,77,80,80;");
    assert_eq!(written(TriggerKind::Touch), "1,1595,51,51;");
    assert_eq!(written(TriggerKind::Collision), "1,1815,51,51,80,80,95,95;");
    assert_eq!(written(TriggerKind::Count), "1,1611,51,51,77,77,80,80;");
}

#[test]
fn missing_property_is_reported_with_its_key() {
    let trigger = Trigger {
        kind: TriggerKind::Move,
        properties: vec![property(10, number("1")), property(51, PropertyValue::Id(1))],
        owner: None,
    };
    assert_eq!(serialize_trigger(&trigger), Err(MalformedTrigger { position: 0, key: 28 }));
}

#[test]
fn first_malformed_trigger_is_reported_with_its_place() {
    let good = Trigger {
        kind: TriggerKind::Stop,
        properties: vec![property(51, PropertyValue::Id(1))],
        owner: None,
    };
    let bad = Trigger { kind: TriggerKind::Spawn, properties: vec![], owner: None };
    let worse = Trigger { kind: TriggerKind::Alpha, properties: vec![], owner: None };
    assert_eq!(
        serialize(&vec![good, bad, worse]),
        Err(MalformedTrigger { position: 1, key: 51 })
    );
}
