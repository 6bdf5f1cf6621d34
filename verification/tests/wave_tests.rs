use std::collections::{BTreeSet, HashMap};

use libsurfer::bignum::UnsignedBigInt;
use libsurfer::value::VariableValue;
use num::BigUint;
use libsurfer::wave::{
    collect_change_times, compute_source_value_at, get_item_total_bits, DisplayedBus, DisplayedItem,
    DisplayedItemRef, DisplayedSplitField, DisplayedVariable, VariableRef, WaveContainer, WaveData,
    WaveVariable,
};

fn at(t: u64) -> UnsignedBigInt {
    UnsignedBigInt { bytes: BigUint::from(t).to_bytes_le() }
}

fn var(id: usize, name: &str) -> DisplayedItem {
    DisplayedItem::Variable(DisplayedVariable {
        variable_ref: VariableRef { path: vec!["top".to_string()], name: name.to_string(), id },
    })
}

fn setup() -> (WaveData, WaveContainer) {
    let container = WaveContainer {
        variables: vec![
            WaveVariable {
                num_bits: Some(4),
                loaded: true,
                changes: vec![(0, VariableValue::BigUint(vec![3])), (10, VariableValue::BigUint(vec![9]))],
            },
            WaveVariable {
                num_bits: Some(2),
                loaded: true,
                changes: vec![(5, VariableValue::String("x1".to_string()))],
            },
            WaveVariable { num_bits: None, loaded: false, changes: vec![] },
        ],
    };
    let mut items = HashMap::new();
    items.insert(0, var(0, "a"));
    items.insert(1, var(1, "b"));
    items.insert(
        2,
        DisplayedItem::Bus(DisplayedBus { sources: vec![DisplayedItemRef(0), DisplayedItemRef(1)] }),
    );
    items.insert(
        3,
        DisplayedItem::SplitField(DisplayedSplitField { source: DisplayedItemRef(2), start_bit: 2, end_bit: 5 }),
    );
    items.insert(4, DisplayedItem::Other);
    items.insert(5, var(2, "c"));
    items.insert(
        6,
        DisplayedItem::Bus(DisplayedBus {
            sources: vec![DisplayedItemRef(0), DisplayedItemRef(5), DisplayedItemRef(4)],
        }),
    );
    items.insert(
        7,
        DisplayedItem::Bus(DisplayedBus { sources: vec![DisplayedItemRef(1), DisplayedItemRef(0)] }),
    );
    let waves = WaveData { displayed_items: items, annotations: vec![], annotation_groups: vec![] };
    (waves, container)
}

#[test]
fn variable_value_is_last_change() {
    let (waves, wc) = setup();
    assert_eq!(
        compute_source_value_at(&waves, &wc, DisplayedItemRef(0), &at(12)),
        Some((VariableValue::BigUint(vec![9]), 4))
    );
    assert_eq!(
        compute_source_value_at(&waves, &wc, DisplayedItemRef(0), &at(10)),
        Some((VariableValue::BigUint(vec![9]), 4))
    );
    assert_eq!(
        compute_source_value_at(&waves, &wc, DisplayedItemRef(0), &at(3)),
        Some((VariableValue::BigUint(vec![3]), 4))
    );
    assert_eq!(compute_source_value_at(&waves, &wc, DisplayedItemRef(1), &at(3)), None);
    assert_eq!(
        compute_source_value_at(&waves, &wc, DisplayedItemRef(1), &at(7)),
        Some((VariableValue::String("x1".to_string()), 2))
    );
}

#[test]
fn items_without_value() {
    let (waves, wc) = setup();
    assert_eq!(compute_source_value_at(&waves, &wc, DisplayedItemRef(4), &at(7)), None);
    assert_eq!(compute_source_value_at(&waves, &wc, DisplayedItemRef(5), &at(7)), None);
    assert_eq!(compute_source_value_at(&waves, &wc, DisplayedItemRef(99), &at(7)), None);
}

#[test]
fn bus_value_concatenates_sources() {
    let (waves, wc) = setup();
    assert_eq!(
        compute_source_value_at(&waves, &wc, DisplayedItemRef(2), &at(7)),
        Some((VariableValue::String("x10011".to_string()), 6))
    );
    assert_eq!(
        compute_source_value_at(&waves, &wc, DisplayedItemRef(2), &at(3)),
        Some((VariableValue::BigUint(vec![3]), 6))
    );
}

#[test]
fn bus_with_unloaded_source_gets_unknown_bits() {
    let (waves, wc) = setup();
    assert_eq!(
        compute_source_value_at(&waves, &wc, DisplayedItemRef(6), &at(12)),
        Some((VariableValue::String("x1001".to_string()), 5))
    );
}

#[test]
fn split_field_value_extracts_bits() {
    let (waves, wc) = setup();
    assert_eq!(
        compute_source_value_at(&waves, &wc, DisplayedItemRef(3), &at(7)),
        Some((VariableValue::String("x100".to_string()), 4))
    );
    assert_eq!(
        compute_source_value_at(&waves, &wc, DisplayedItemRef(3), &at(12)),
        Some((VariableValue::String("x110".to_string()), 4))
    );
}

#[test]
fn total_bits_of_items() {
    let (waves, wc) = setup();
    assert_eq!(get_item_total_bits(&waves, &wc, DisplayedItemRef(0)), Some(4));
    assert_eq!(get_item_total_bits(&waves, &wc, DisplayedItemRef(5)), Some(1));
    assert_eq!(get_item_total_bits(&waves, &wc, DisplayedItemRef(2)), Some(6));
    assert_eq!(get_item_total_bits(&waves, &wc, DisplayedItemRef(6)), Some(5));
    assert_eq!(get_item_total_bits(&waves, &wc, DisplayedItemRef(3)), Some(4));
    assert_eq!(get_item_total_bits(&waves, &wc, DisplayedItemRef(4)), None);
    assert_eq!(get_item_total_bits(&waves, &wc, DisplayedItemRef(99)), None);
}

#[test]
fn change_times_of_items() {
    let (waves, wc) = setup();
    let mut times = BTreeSet::new();
    times.insert(100u64);
    collect_change_times(&waves, &wc, DisplayedItemRef(3), &mut times);
    assert_eq!(times.into_iter().collect::<Vec<_>>(), vec![0, 5, 10, 100]);

    let mut none = BTreeSet::new();
    collect_change_times(&waves, &wc, DisplayedItemRef(5), &mut none);
    collect_change_times(&waves, &wc, DisplayedItemRef(4), &mut none);
    assert!(none.is_empty());

    let mut one = BTreeSet::new();
    collect_change_times(&waves, &wc, DisplayedItemRef(1), &mut one);
    assert_eq!(one.into_iter().collect::<Vec<_>>(), vec![5]);
}

#[test]
fn bus_member_after_one_without_value_sits_at_its_offset() {
    let (waves, wc) = setup();
    // `b` (2 bits) has no value before time 5; `a` = 3 goes to bits [2, 6).
    assert_eq!(
        compute_source_value_at(&waves, &wc, DisplayedItemRef(7), &at(3)),
        Some((VariableValue::BigUint(vec![12]), 6))
    );
    assert_eq!(
        compute_source_value_at(&waves, &wc, DisplayedItemRef(7), &at(7)),
        Some((VariableValue::String("0011x1".to_string()), 6))
    );
}

#[test]
fn times_beyond_u64_see_the_last_change() {
    let (waves, wc) = setup();
    let late: BigUint = BigUint::from(1u32) << 70usize;
    let late = UnsignedBigInt { bytes: late.to_bytes_le() };
    assert_eq!(
        compute_source_value_at(&waves, &wc, DisplayedItemRef(0), &late),
        Some((VariableValue::BigUint(vec![9]), 4))
    );
    assert_eq!(wc.variables[1].value_at(&late), Some(VariableValue::String("x1".to_string())));
    assert_eq!(wc.variables[1].value_at(&at(4)), None);
}
