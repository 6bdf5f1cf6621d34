//! The displayed items of a waveform view and what the split-field logic
//! reads of the loaded waveform: variable widths, whether a signal is loaded,
//! and its value changes.
use std::collections::{BTreeSet, HashMap};

use vstd::prelude::*;

use crate::annotation::Annotation;
use crate::value::{
    concat_values, concat_values_spec, concat_with_x, concat_with_x_spec, extract_bits,
    extract_bits_ok, extract_bits_spec, option_view, ValueView, VariableValue,
};
use crate::bignum::{biguint_to_u64, UnsignedBigInt};
use crate::value::lemma_split_field_recovers_bus_source;
use vstd::arithmetic::power2::pow2;
use crate::text::{repeat_seq, repeat_str};

verus! {

broadcast use vstd::std_specs::hash::group_hash_axioms, vstd::laws_cmp::group_laws_cmp;

/// A reference to an item shown in the waveform view.
#[derive(Debug, Clone, Copy, PartialEq, Eq, Hash, Structural)]
pub struct DisplayedItemRef(pub usize);

/// A variable of the waveform: its scope path, its name and its index in
/// the waveform.
pub struct VariableRef {
    pub path: Vec<String>,
    pub name: String,
    pub id: usize,
}

impl View for VariableRef {
    type V = (Seq<String>, Seq<char>, usize);

    open spec fn view(&self) -> (Seq<String>, Seq<char>, usize) {
        (self.path@, self.name@, self.id)
    }
}

impl VariableRef {
    /// A copy of this reference.
    pub fn duplicate(&self) -> (r: Self)
        ensures
            r@ == self@,
    {
        let path = self.path.clone();
        proof {
            assert forall|i: int| 0 <= i < path@.len() implies path@[i] == self.path@[i] by {
                assert(vstd::pervasive::cloned(self.path@[i], path@[i]));
            }
            assert(path@ =~= self.path@);
        }
        VariableRef { path, name: self.name.clone(), id: self.id }
    }
}

/// A variable shown in the view.
pub struct DisplayedVariable {
    pub variable_ref: VariableRef,
}

/// Several variables shown as one bus; the first source holds the lowest bits.
pub struct DisplayedBus {
    pub sources: Vec<DisplayedItemRef>,
}

/// Bits `[start_bit, end_bit]` of another item.
pub struct DisplayedSplitField {
    pub source: DisplayedItemRef,
    pub start_bit: u32,
    pub end_bit: u32,
}

/// An item of the view.
pub enum DisplayedItem {
    Variable(DisplayedVariable),
    Bus(DisplayedBus),
    SplitField(DisplayedSplitField),
    /// Markers, dividers, streams and the other items without a value.
    Other,
}

/// What is known of one variable of the loaded waveform.
pub struct WaveVariable {
    /// The width the waveform declares, if any.
    pub num_bits: Option<u32>,
    /// Whether the signal's data has been loaded.
    pub loaded: bool,
    /// The value changes: time and new value.
    pub changes: Vec<(u64, VariableValue)>,
}

/// The loaded waveform; `VariableRef::id` indexes `variables`.
pub struct WaveContainer {
    pub variables: Vec<WaveVariable>,
}

/// The waveform view: its items and its annotations.
pub struct WaveData {
    /// The shown items, keyed by the number of their `DisplayedItemRef`.
    pub displayed_items: HashMap<usize, DisplayedItem>,
    pub annotations: Vec<Annotation>,
    /// The annotation groups that were created, in creation order.
    pub annotation_groups: Vec<String>,
}

// ── The model of the waveform ────────────────────────────────────────────────

pub open spec fn wave_variable(wc: WaveContainer, var: VariableRef) -> Option<WaveVariable> {
    if var.id < wc.variables@.len() {
        Some(wc.variables@[var.id as int])
    } else {
        None
    }
}

/// The width of a variable, one bit where the waveform gives none.
pub open spec fn width_of(w: WaveVariable) -> u32 {
    match w.num_bits {
        Some(n) => n,
        None => 1,
    }
}

/// The value set by the last change at or before `time`.
pub open spec fn value_at_or_before(changes: Seq<(u64, VariableValue)>, time: nat) -> Option<ValueView>
    decreases changes.len(),
{
    if changes.len() == 0 {
        None
    } else if changes.last().0 <= time {
        Some(changes.last().1@)
    } else {
        value_at_or_before(changes.drop_last(), time)
    }
}

impl VariableValue {
    /// A copy of this value.
    pub fn duplicate(&self) -> (r: Self)
        ensures
            r@ == self@,
    {
        match self {
            VariableValue::BigUint(b) => {
                let c = b.clone();
                assert(c@ =~= b@);
                VariableValue::BigUint(c)
            },
            VariableValue::String(s) => VariableValue::String(s.clone()),
        }
    }
}

impl WaveVariable {
    /// The value at `time`: that of the last change at or before it.
    pub fn value_at(&self, time: &UnsignedBigInt) -> (r: Option<VariableValue>)
        ensures
            option_view(r) == value_at_or_before(self.changes@, time@),
    {
        let limit = biguint_to_u64(time.bytes.as_slice());
        let mut i = self.changes.len();
        assert(self.changes@.take(i as int) =~= self.changes@);
        while i > 0
            invariant
                i <= self.changes@.len(),
                limit == (if time@ <= u64::MAX { Some(time@ as u64) } else { None::<u64> }),
                value_at_or_before(self.changes@, time@) == value_at_or_before(
                    self.changes@.take(i as int),
                    time@,
                ),
            decreases i,
        {
            let ghost prefix = self.changes@.take(i as int);
            assert(prefix.drop_last() =~= self.changes@.take(i - 1));
            let at_or_before = match limit {
                Some(t) => self.changes[i - 1].0 <= t,
                None => true,
            };
            if at_or_before {
                return Some(self.changes[i - 1].1.duplicate());
            }
            i = i - 1;
        }
        None
    }
}

impl WaveContainer {
    /// The variable that `var` refers to, if the waveform has it.
    pub fn variable(&self, var: &VariableRef) -> (r: Option<&WaveVariable>)
        ensures
            match r {
                Some(w) => wave_variable(*self, *var) == Some(*w),
                None => wave_variable(*self, *var).is_none(),
            },
    {
        if var.id < self.variables.len() {
            Some(&self.variables[var.id])
        } else {
            None
        }
    }
}

// ── The value of an item ─────────────────────────────────────────────────────

/// The value of a bus gathered from `sources`, and its width so far. A source
/// that is not a known variable is skipped; one without loaded data adds
/// unknown bits; one without a change yet adds width but no value.
pub open spec fn bus_fold(
    items: Map<usize, DisplayedItem>,
    wc: WaveContainer,
    sources: Seq<DisplayedItemRef>,
    time: nat,
) -> (Option<ValueView>, nat)
    decreases sources.len(),
{
    if sources.len() == 0 {
        (None, 0)
    } else {
        let prev = bus_fold(items, wc, sources.drop_last(), time);
        let acc = prev.0;
        let offset = prev.1;
        let r = sources.last().0;
        if items.dom().contains(r) && items[r] is Variable && wave_variable(
            wc,
            items[r]->Variable_0.variable_ref,
        ) is Some {
            let w = wave_variable(wc, items[r]->Variable_0.variable_ref)->Some_0;
            let bits = width_of(w);
            let next = offset + bits as nat;
            if !w.loaded {
                (
                    Some(concat_with_x_spec(acc, repeat_seq(seq!['x'], bits as nat), offset as u32)),
                    next,
                )
            } else {
                match value_at_or_before(w.changes@, time) {
                    Some(v) => (Some(concat_values_spec(acc, v, bits, offset as u32)), next),
                    None => (acc, next),
                }
            }
        } else {
            (acc, offset)
        }
    }
}

/// The value of item `r` at `time` and its width, following split fields
/// down at most `fuel` levels.
pub open spec fn source_value(
    items: Map<usize, DisplayedItem>,
    wc: WaveContainer,
    r: usize,
    time: nat,
    fuel: nat,
) -> Option<(ValueView, nat)>
    decreases fuel,
{
    if fuel == 0 || !items.dom().contains(r) {
        None
    } else {
        match items[r] {
            DisplayedItem::Variable(var) => match wave_variable(wc, var.variable_ref) {
                None => None,
                Some(w) => if !w.loaded {
                    None
                } else {
                    match value_at_or_before(w.changes@, time) {
                        None => None,
                        Some(v) => Some((v, width_of(w) as nat)),
                    }
                },
            },
            DisplayedItem::Bus(bus) => {
                let folded = bus_fold(items, wc, bus.sources@, time);
                match folded.0 {
                    None => None,
                    Some(v) => Some((v, folded.1)),
                }
            },
            DisplayedItem::SplitField(sf) => match source_value(
                items,
                wc,
                sf.source.0,
                time,
                (fuel - 1) as nat,
            ) {
                None => None,
                Some(inner) => Some(
                    (
                        extract_bits_spec(inner.0, inner.1 as u32, sf.start_bit, sf.end_bit),
                        (sf.end_bit - sf.start_bit + 1) as nat,
                    ),
                ),
            },
            DisplayedItem::Other => None,
        }
    }
}

/// The inputs on which computing the value of `r` does not panic: split
/// fields end within `fuel` levels, bus widths fit in a `u32`, and each
/// extracted range fits its source.
pub open spec fn source_value_safe(
    items: Map<usize, DisplayedItem>,
    wc: WaveContainer,
    r: usize,
    time: nat,
    fuel: nat,
) -> bool
    decreases fuel,
{
    &&& fuel > 0
    &&& items.dom().contains(r) ==> match items[r] {
        DisplayedItem::Bus(bus) => bus_fold(items, wc, bus.sources@, time).1 <= u32::MAX,
        DisplayedItem::SplitField(sf) => {
            &&& source_value_safe(items, wc, sf.source.0, time, (fuel - 1) as nat)
            &&& match source_value(items, wc, sf.source.0, time, (fuel - 1) as nat) {
                Some(inner) => inner.1 <= u32::MAX && extract_bits_ok(
                    inner.0,
                    inner.1 as u32,
                    sf.start_bit,
                    sf.end_bit,
                ),
                None => true,
            }
        },
        _ => true,
    }
}

/// A depth at which `source_value_safe` holds, where there is one.
pub open spec fn source_value_depth(
    items: Map<usize, DisplayedItem>,
    wc: WaveContainer,
    r: usize,
    time: nat,
) -> nat {
    choose|fuel: nat| source_value_safe(items, wc, r, time, fuel)
}

pub open spec fn item_value_view(r: Option<(VariableValue, u32)>) -> Option<(ValueView, nat)> {
    match r {
        Some(p) => Some((p.0@, p.1 as nat)),
        None => None,
    }
}

proof fn lemma_bus_fold_prefix(
    items: Map<usize, DisplayedItem>,
    wc: WaveContainer,
    sources: Seq<DisplayedItemRef>,
    time: nat,
    k: int,
)
    requires
        0 <= k <= sources.len(),
    ensures
        bus_fold(items, wc, sources.take(k), time).1 <= bus_fold(items, wc, sources, time).1,
    decreases sources.len() - k,
{
    if k < sources.len() {
        lemma_bus_fold_prefix(items, wc, sources, time, k + 1);
        assert(sources.take(k + 1).drop_last() =~= sources.take(k));
    } else {
        assert(sources.take(k) =~= sources);
    }
}

/// The value of the bus `bus` at `time` and its width.
fn bus_value_at(waves: &WaveData, wave_container: &WaveContainer, bus: &DisplayedBus, time: &UnsignedBigInt) -> (r:
    Option<(VariableValue, u32)>)
    requires
        bus_fold(waves.displayed_items@, *wave_container, bus.sources@, time@).1 <= u32::MAX,
    ensures
        item_value_view(r) == match bus_fold(
            waves.displayed_items@,
            *wave_container,
            bus.sources@,
            time@,
        ).0 {
            None => None,
            Some(v) => Some((v, bus_fold(waves.displayed_items@, *wave_container, bus.sources@, time@).1)),
        },
{
    let ghost items = waves.displayed_items@;
    let mut concat_value: Option<VariableValue> = None;
    let mut bit_offset: u32 = 0;
    let mut total_bits: u32 = 0;
    let mut i: usize = 0;
    while i < bus.sources.len()
        invariant
            i <= bus.sources@.len(),
            items == waves.displayed_items@,
            bus_fold(items, *wave_container, bus.sources@, time@).1 <= u32::MAX,
            option_view(concat_value) == bus_fold(
                items,
                *wave_container,
                bus.sources@.take(i as int),
                time@,
            ).0,
            bit_offset as nat == bus_fold(items, *wave_container, bus.sources@.take(i as int), time@).1,
            total_bits == bit_offset,
        decreases bus.sources@.len() - i,
    {
        let src_ref = bus.sources[i];
        proof {
            assert(bus.sources@.take(i + 1).drop_last() =~= bus.sources@.take(i as int));
            lemma_bus_fold_prefix(items, *wave_container, bus.sources@, time@, i + 1);
        }
        i = i + 1;
        let src_var = match waves.displayed_items.get(&src_ref.0) {
            Some(DisplayedItem::Variable(v)) => v,
            _ => {
                continue;
            },
        };
        let w = match wave_container.variable(&src_var.variable_ref) {
            Some(w) => w,
            None => {
                continue;
            },
        };
        let src_bits = match w.num_bits {
            Some(n) => n,
            None => 1,
        };
        total_bits = total_bits + src_bits;
        if !w.loaded {
            let x_bits = repeat_str("x", src_bits as usize);
            proof {
                reveal_strlit("x");
                assert("x"@ =~= seq!['x']);
            }
            concat_value = Some(concat_with_x(concat_value, x_bits, bit_offset));
            bit_offset = bit_offset + src_bits;
            continue;
        }
        match w.value_at(time) {
            Some(src_val) => {
                concat_value = Some(concat_values(concat_value, src_val, src_bits, bit_offset));
            },
            None => {},
        }
        bit_offset = bit_offset + src_bits;
    }
    proof {
        assert(bus.sources@.take(i as int) =~= bus.sources@);
    }
    match concat_value {
        Some(v) => Some((v, total_bits)),
        None => None,
    }
}

/// Gets the raw value and bit width of a displayed item at `time`.
///
/// Returns `Some((value, total_bits))`, or `None` if the value is not
/// available. Handles variables, buses and split fields, the latter
/// recursively.
pub fn compute_source_value_at(
    waves: &WaveData,
    wave_container: &WaveContainer,
    source_ref: DisplayedItemRef,
    time: &UnsignedBigInt,
) -> (r: Option<(VariableValue, u32)>)
    requires
        exists|fuel: nat|
            source_value_safe(waves.displayed_items@, *wave_container, source_ref.0, time@, fuel),
    ensures
        item_value_view(r) == source_value(
            waves.displayed_items@,
            *wave_container,
            source_ref.0,
            time@,
            source_value_depth(waves.displayed_items@, *wave_container, source_ref.0, time@),
        ),
        r matches Some(p) ==> item_total_bits(waves.displayed_items@, *wave_container, source_ref.0)
            == Some(p.1 as nat),
{
    let ghost fuel = source_value_depth(waves.displayed_items@, *wave_container, source_ref.0, time@);
    let r = value_at_depth(waves, wave_container, source_ref, time, Ghost(fuel));
    proof {
        if r is Some {
            lemma_value_width_is_total_bits(waves.displayed_items@, *wave_container, source_ref.0, time@, fuel);
        }
    }
    r
}

fn value_at_depth(
    waves: &WaveData,
    wave_container: &WaveContainer,
    source_ref: DisplayedItemRef,
    time: &UnsignedBigInt,
    Ghost(fuel): Ghost<nat>,
) -> (r: Option<(VariableValue, u32)>)
    requires
        source_value_safe(waves.displayed_items@, *wave_container, source_ref.0, time@, fuel),
    ensures
        item_value_view(r) == source_value(waves.displayed_items@, *wave_container, source_ref.0, time@, fuel),
    decreases fuel,
{
    let item = match waves.displayed_items.get(&source_ref.0) {
        Some(item) => item,
        None => return None,
    };
    match item {
        DisplayedItem::Variable(var) => {
            let w = match wave_container.variable(&var.variable_ref) {
                Some(w) => w,
                None => return None,
            };
            let num_bits = match w.num_bits {
                Some(n) => n,
                None => 1,
            };
            if !w.loaded {
                return None;
            }
            match w.value_at(time) {
                Some(val) => Some((val, num_bits)),
                None => None,
            }
        },
        DisplayedItem::Bus(bus) => bus_value_at(waves, wave_container, bus, time),
        DisplayedItem::SplitField(sf) => {
            let inner = value_at_depth(waves, wave_container, sf.source, time, Ghost((fuel - 1) as nat));
            match inner {
                None => None,
                Some((src_val, src_bits)) => {
                    let extracted = extract_bits(src_val, src_bits, sf.start_bit, sf.end_bit);
                    Some((extracted, sf.end_bit - sf.start_bit + 1))
                },
            }
        },
        DisplayedItem::Other => None,
    }
}

// ── Change times ─────────────────────────────────────────────────────────────

/// The items reachable from `r` through buses and split fields end within
/// `fuel` levels.
pub open spec fn change_times_safe(items: Map<usize, DisplayedItem>, r: usize, fuel: nat) -> bool
    decreases fuel,
{
    &&& fuel > 0
    &&& items.dom().contains(r) ==> match items[r] {
        DisplayedItem::Bus(bus) => forall|i: int|
            0 <= i < bus.sources@.len() ==> change_times_safe(
                items,
                #[trigger] bus.sources@[i].0,
                (fuel - 1) as nat,
            ),
        DisplayedItem::SplitField(sf) => change_times_safe(items, sf.source.0, (fuel - 1) as nat),
        _ => true,
    }
}

/// The times at which a variable changes, once its data is loaded.
pub open spec fn variable_change_times(w: WaveVariable) -> Set<u64> {
    if w.loaded {
        Set::new(|t: u64| exists|i: int| 0 <= i < w.changes@.len() && w.changes@[i].0 == t)
    } else {
        Set::empty()
    }
}

/// All times at which a signal reachable from `r` changes.
pub open spec fn change_times(
    items: Map<usize, DisplayedItem>,
    wc: WaveContainer,
    r: usize,
    fuel: nat,
) -> Set<u64>
    decreases fuel, 1nat, 0nat,
{
    if fuel == 0 || !items.dom().contains(r) {
        Set::empty()
    } else {
        match items[r] {
            DisplayedItem::Variable(var) => match wave_variable(wc, var.variable_ref) {
                Some(w) => variable_change_times(w),
                None => Set::empty(),
            },
            DisplayedItem::Bus(bus) => sources_change_times(items, wc, bus.sources@, (fuel - 1) as nat),
            DisplayedItem::SplitField(sf) => change_times(items, wc, sf.source.0, (fuel - 1) as nat),
            DisplayedItem::Other => Set::empty(),
        }
    }
}

/// The union of the change times of `sources`.
pub open spec fn sources_change_times(
    items: Map<usize, DisplayedItem>,
    wc: WaveContainer,
    sources: Seq<DisplayedItemRef>,
    fuel: nat,
) -> Set<u64>
    decreases fuel, 2nat, sources.len(),
{
    if sources.len() == 0 {
        Set::empty()
    } else {
        sources_change_times(items, wc, sources.drop_last(), fuel) + change_times(
            items,
            wc,
            sources.last().0,
            fuel,
        )
    }
}

/// A depth at which `change_times_safe` holds, where there is one.
pub open spec fn change_times_depth(items: Map<usize, DisplayedItem>, r: usize) -> nat {
    choose|fuel: nat| change_times_safe(items, r, fuel)
}

/// Recursively collects all signal change timestamps reachable from
/// `source_ref`: those of a variable, of every source of a bus, and of the
/// source of a split field.
pub fn collect_change_times(
    waves: &WaveData,
    wave_container: &WaveContainer,
    source_ref: DisplayedItemRef,
    times: &mut BTreeSet<u64>,
)
    requires
        exists|fuel: nat| change_times_safe(waves.displayed_items@, source_ref.0, fuel),
    ensures
        final(times)@ == old(times)@ + change_times(
            waves.displayed_items@,
            *wave_container,
            source_ref.0,
            change_times_depth(waves.displayed_items@, source_ref.0),
        ),
{
    let ghost fuel = change_times_depth(waves.displayed_items@, source_ref.0);
    collect_at_depth(waves, wave_container, source_ref, times, Ghost(fuel));
}

fn collect_at_depth(
    waves: &WaveData,
    wave_container: &WaveContainer,
    source_ref: DisplayedItemRef,
    times: &mut BTreeSet<u64>,
    Ghost(fuel): Ghost<nat>,
)
    requires
        change_times_safe(waves.displayed_items@, source_ref.0, fuel),
    ensures
        final(times)@ == old(times)@ + change_times(
            waves.displayed_items@,
            *wave_container,
            source_ref.0,
            fuel,
        ),
    decreases fuel, 1nat, 0nat,
{
    let ghost items = waves.displayed_items@;
    let item = match waves.displayed_items.get(&source_ref.0) {
        Some(item) => item,
        None => {
            assert(old(times)@ + Set::empty() =~= old(times)@);
            return;
        },
    };
    match item {
        DisplayedItem::Variable(var) => {
            let w = match wave_container.variable(&var.variable_ref) {
                Some(w) => w,
                None => {
                    assert(old(times)@ + Set::empty() =~= old(times)@);
                    return;
                },
            };
            if !w.loaded {
                assert(old(times)@ + Set::empty() =~= old(times)@);
                return;
            }
            let mut i: usize = 0;
            while i < w.changes.len()
                invariant
                    i <= w.changes@.len(),
                    times@ == old(times)@ + Set::new(
                        |t: u64| exists|j: int| 0 <= j < i && w.changes@[j].0 == t,
                    ),
                decreases w.changes@.len() - i,
            {
                let t = w.changes[i].0;
                times.insert(t);
                i = i + 1;
                proof {
                    assert(times@ =~= old(times)@ + Set::new(
                        |t: u64| exists|j: int| 0 <= j < i && w.changes@[j].0 == t,
                    )) by {
                        assert forall|u: u64| #[trigger] times@.contains(u) implies (old(
                            times,
                        )@ + Set::new(|t: u64| exists|j: int| 0 <= j < i && w.changes@[j].0 == t)).contains(
                            u,
                        ) by {
                            if u == t {
                                assert(w.changes@[i - 1].0 == u);
                            }
                        }
                    }
                }
            }
            proof {
                assert(times@ =~= old(times)@ + variable_change_times(*w));
            }
        },
        DisplayedItem::Bus(bus) => {
            let mut i: usize = 0;
            while i < bus.sources.len()
                invariant
                    i <= bus.sources@.len(),
                    items == waves.displayed_items@,
                    items.dom().contains(source_ref.0),
                    items[source_ref.0] == DisplayedItem::Bus(*bus),
                    change_times_safe(items, source_ref.0, fuel),
                    fuel > 0,
                    times@ == old(times)@ + sources_change_times(
                        items,
                        *wave_container,
                        bus.sources@.take(i as int),
                        (fuel - 1) as nat,
                    ),
                decreases bus.sources@.len() - i,
            {
                let src = bus.sources[i];
                proof {
                    assert(bus.sources@.take(i + 1).drop_last() =~= bus.sources@.take(i as int));
                    let ghost b = items[source_ref.0]->Bus_0;
                    assert(b == *bus);
                    assert(b.sources@[i as int] == bus.sources@[i as int]);
                    assert(change_times_safe(items, b.sources@[i as int].0, (fuel - 1) as nat));
                }
                collect_at_depth(waves, wave_container, src, times, Ghost((fuel - 1) as nat));
                i = i + 1;
                proof {
                    let prev = sources_change_times(
                        items,
                        *wave_container,
                        bus.sources@.take(i - 1),
                        (fuel - 1) as nat,
                    );
                    let here = change_times(items, *wave_container, src.0, (fuel - 1) as nat);
                    assert(times@ =~= old(times)@ + (prev + here));
                }
            }
            proof {
                assert(bus.sources@.take(i as int) =~= bus.sources@);
            }
        },
        DisplayedItem::SplitField(sf) => {
            let src = sf.source;
            collect_at_depth(waves, wave_container, src, times, Ghost((fuel - 1) as nat));
        },
        DisplayedItem::Other => {
            assert(old(times)@ + Set::empty() =~= old(times)@);
        },
    }
}

// ── Widths ───────────────────────────────────────────────────────────────────

/// The summed width of the sources of a bus that are known variables.
pub open spec fn sources_width(
    items: Map<usize, DisplayedItem>,
    wc: WaveContainer,
    sources: Seq<DisplayedItemRef>,
) -> nat
    decreases sources.len(),
{
    if sources.len() == 0 {
        0
    } else {
        let r = sources.last().0;
        sources_width(items, wc, sources.drop_last()) + if items.dom().contains(r)
            && items[r] is Variable && wave_variable(wc, items[r]->Variable_0.variable_ref) is Some {
            width_of(wave_variable(wc, items[r]->Variable_0.variable_ref)->Some_0) as nat
        } else {
            0nat
        }
    }
}

/// The width of item `r`, for items that can be the source of a split field.
pub open spec fn item_total_bits(items: Map<usize, DisplayedItem>, wc: WaveContainer, r: usize) -> Option<
    nat,
> {
    if !items.dom().contains(r) {
        None
    } else {
        match items[r] {
            DisplayedItem::Variable(var) => match wave_variable(wc, var.variable_ref) {
                Some(w) => Some(width_of(w) as nat),
                None => None,
            },
            DisplayedItem::Bus(bus) => Some(sources_width(items, wc, bus.sources@)),
            DisplayedItem::SplitField(sf) => Some((sf.end_bit - sf.start_bit + 1) as nat),
            DisplayedItem::Other => None,
        }
    }
}

/// The inputs on which `get_item_total_bits` does not overflow.
pub open spec fn item_total_bits_safe(items: Map<usize, DisplayedItem>, wc: WaveContainer, r: usize) -> bool {
    items.dom().contains(r) ==> match items[r] {
        DisplayedItem::Bus(bus) => sources_width(items, wc, bus.sources@) <= u32::MAX,
        DisplayedItem::SplitField(sf) => sf.start_bit <= sf.end_bit && sf.end_bit - sf.start_bit
            < u32::MAX,
        _ => true,
    }
}

proof fn lemma_sources_width_prefix(
    items: Map<usize, DisplayedItem>,
    wc: WaveContainer,
    sources: Seq<DisplayedItemRef>,
    k: int,
)
    requires
        0 <= k <= sources.len(),
    ensures
        sources_width(items, wc, sources.take(k)) <= sources_width(items, wc, sources),
    decreases sources.len() - k,
{
    if k < sources.len() {
        lemma_sources_width_prefix(items, wc, sources, k + 1);
        assert(sources.take(k + 1).drop_last() =~= sources.take(k));
    } else {
        assert(sources.take(k) =~= sources);
    }
}

/// Computes the total bit width of an item that can be a split-field source.
pub fn get_item_total_bits(waves: &WaveData, wave_container: &WaveContainer, source_ref: DisplayedItemRef) -> (r:
    Option<u32>)
    requires
        item_total_bits_safe(waves.displayed_items@, *wave_container, source_ref.0),
    ensures
        match r {
            Some(n) => item_total_bits(waves.displayed_items@, *wave_container, source_ref.0) == Some(
                n as nat,
            ),
            None => item_total_bits(waves.displayed_items@, *wave_container, source_ref.0).is_none(),
        },
{
    let ghost items = waves.displayed_items@;
    let item = match waves.displayed_items.get(&source_ref.0) {
        Some(item) => item,
        None => return None,
    };
    match item {
        DisplayedItem::Variable(var) => match wave_container.variable(&var.variable_ref) {
            Some(w) => match w.num_bits {
                Some(n) => Some(n),
                None => Some(1),
            },
            None => None,
        },
        DisplayedItem::Bus(bus) => {
            let mut total: u32 = 0;
            let mut i: usize = 0;
            while i < bus.sources.len()
                invariant
                    i <= bus.sources@.len(),
                    items == waves.displayed_items@,
                    sources_width(items, *wave_container, bus.sources@) <= u32::MAX,
                    total as nat == sources_width(items, *wave_container, bus.sources@.take(i as int)),
                decreases bus.sources@.len() - i,
            {
                let src = bus.sources[i];
                proof {
                    assert(bus.sources@.take(i + 1).drop_last() =~= bus.sources@.take(i as int));
                    lemma_sources_width_prefix(items, *wave_container, bus.sources@, i + 1);
                }
                i = i + 1;
                if let Some(DisplayedItem::Variable(v)) = waves.displayed_items.get(&src.0) {
                    if let Some(w) = wave_container.variable(&v.variable_ref) {
                        let n = match w.num_bits {
                            Some(n) => n,
                            None => 1,
                        };
                        total = total + n;
                    }
                }
            }
            proof {
                assert(bus.sources@.take(i as int) =~= bus.sources@);
            }
            Some(total)
        },
        DisplayedItem::SplitField(sf) => Some(sf.end_bit - sf.start_bit + 1),
        DisplayedItem::Other => None,
    }
}

// ── Laws ─────────────────────────────────────────────────────────────────────

/// A bus is as wide as its known variable sources, whether or not they have
/// a value yet.
proof fn lemma_bus_fold_width(
    items: Map<usize, DisplayedItem>,
    wc: WaveContainer,
    sources: Seq<DisplayedItemRef>,
    time: nat,
)
    ensures
        bus_fold(items, wc, sources, time).1 == sources_width(items, wc, sources),
    decreases sources.len(),
{
    if sources.len() > 0 {
        lemma_bus_fold_width(items, wc, sources.drop_last(), time);
    }
}

/// The width that comes with the value of an item is the width that the
/// item offers as the source of a split field.
pub proof fn lemma_value_width_is_total_bits(
    items: Map<usize, DisplayedItem>,
    wc: WaveContainer,
    r: usize,
    time: nat,
    fuel: nat,
)
    requires
        source_value(items, wc, r, time, fuel) is Some,
    ensures
        item_total_bits(items, wc, r) == Some(source_value(items, wc, r, time, fuel)->Some_0.1),
{
    if let DisplayedItem::Bus(bus) = items[r] {
        lemma_bus_fold_width(items, wc, bus.sources@, time);
    }
}

proof fn lemma_repeat_unit(c: char, n: nat)
    ensures
        repeat_seq(seq![c], n).len() == n,
        forall|k: int| 0 <= k < n ==> #[trigger] repeat_seq(seq![c], n)[k] == c,
    decreases n,
{
    if n > 0 {
        lemma_repeat_unit(c, (n - 1) as nat);
        let prev = repeat_seq(seq![c], (n - 1) as nat);
        assert(repeat_seq(seq![c], n) == prev + seq![c]);
        assert forall|k: int| 0 <= k < n implies #[trigger] repeat_seq(seq![c], n)[k] == c by {
            if k < n - 1 {
                assert((prev + seq![c])[k] == prev[k]);
            }
        }
    }
}

/// A bus source that is a known variable without loaded data shows as
/// unknown bits: once it is placed, the bus is as many bits wider as the
/// variable is wide, and its value is text whose top digits, one for each of
/// those bits, are all `x`.
pub proof fn lemma_unloaded_source_is_unknown_bits(
    items: Map<usize, DisplayedItem>,
    wc: WaveContainer,
    sources: Seq<DisplayedItemRef>,
    time: nat,
)
    requires
        sources.len() > 0,
        items.dom().contains(sources.last().0),
        items[sources.last().0] is Variable,
        wave_variable(wc, items[sources.last().0]->Variable_0.variable_ref) is Some,
        !wave_variable(wc, items[sources.last().0]->Variable_0.variable_ref)->Some_0.loaded,
    ensures
        ({
            let w = width_of(wave_variable(wc, items[sources.last().0]->Variable_0.variable_ref)->Some_0) as nat;
            let folded = bus_fold(items, wc, sources, time);
            &&& folded.1 == bus_fold(items, wc, sources.drop_last(), time).1 + w
            &&& folded.0 matches Some(ValueView::Bits(v)) && v.len() >= w && forall|k: int|
                0 <= k < w ==> #[trigger] v[k] == 'x'
        }),
{
    let w = width_of(wave_variable(wc, items[sources.last().0]->Variable_0.variable_ref)->Some_0) as nat;
    lemma_repeat_unit('x', w);
    let xs = repeat_seq(seq!['x'], w);
    let folded = bus_fold(items, wc, sources, time);
    let v = folded.0->Some_0->Bits_0;
    assert forall|k: int| 0 <= k < w implies #[trigger] v[k] == 'x' by {
        assert(v[k] == xs[k]);
    }
}

/// The value of a variable at `time` is that of its last change at or
/// before `time`: none when every change comes later.
pub proof fn lemma_value_is_last_change_not_after(changes: Seq<(u64, VariableValue)>, time: nat)
    ensures
        value_at_or_before(changes, time) is None <==> forall|k: int|
            0 <= k < changes.len() ==> #[trigger] changes[k].0 > time,
        value_at_or_before(changes, time) is Some ==> exists|k: int|
            0 <= k < changes.len() && #[trigger] changes[k].0 <= time && value_at_or_before(changes, time)
                == Some(changes[k].1@) && forall|l: int| k < l < changes.len() ==> #[trigger] changes[l].0 > time,
    decreases changes.len(),
{
    if changes.len() > 0 {
        let prefix = changes.drop_last();
        let n = changes.len();
        lemma_value_is_last_change_not_after(prefix, time);
        if changes.last().0 <= time {
            assert(changes[n - 1].0 <= time);
        } else {
            assert forall|k: int| 0 <= k < n - 1 implies (#[trigger] changes[k]) == prefix[k] by {}
            if value_at_or_before(prefix, time) is Some {
                let k = choose|k: int|
                    0 <= k < prefix.len() && #[trigger] prefix[k].0 <= time && value_at_or_before(prefix, time)
                        == Some(prefix[k].1@) && forall|l: int| k < l < prefix.len() ==> #[trigger] prefix[l].0 > time;
                assert(changes[k] == prefix[k]);
                assert forall|l: int| k < l < n implies #[trigger] changes[l].0 > time by {
                    if l < n - 1 {
                        assert(changes[l] == prefix[l]);
                    }
                }
            } else {
                assert forall|k: int| 0 <= k < n implies #[trigger] changes[k].0 > time by {
                    if k < n - 1 {
                        assert(changes[k] == prefix[k]);
                    }
                }
            }
        }
    }
}

/// Each bus source that is a known variable makes the bus as many bits wider
/// as the variable is wide; any other source leaves the bus as it was.
pub proof fn lemma_bus_source_width(
    items: Map<usize, DisplayedItem>,
    wc: WaveContainer,
    sources: Seq<DisplayedItemRef>,
    time: nat,
)
    requires
        sources.len() > 0,
    ensures
        ({
            let r = sources.last().0;
            let known = items.dom().contains(r) && items[r] is Variable && wave_variable(
                wc,
                items[r]->Variable_0.variable_ref,
            ) is Some;
            let folded = bus_fold(items, wc, sources, time);
            let prev = bus_fold(items, wc, sources.drop_last(), time);
            &&& known ==> folded.1 == prev.1 + width_of(
                wave_variable(wc, items[r]->Variable_0.variable_ref)->Some_0,
            )
            &&& !known ==> folded == prev
        }),
{
}

/// A loaded bus source whose value at `time` is a number goes at the bits
/// just above the sources before it: when those gave no value or a number
/// that fits below, extracting the source's bits from the bus gives the
/// number back.
pub proof fn lemma_bus_number_source_reads_back(
    items: Map<usize, DisplayedItem>,
    wc: WaveContainer,
    sources: Seq<DisplayedItemRef>,
    time: nat,
    v: nat,
    total: u32,
)
    requires
        sources.len() > 0,
        items.dom().contains(sources.last().0),
        items[sources.last().0] is Variable,
        wave_variable(wc, items[sources.last().0]->Variable_0.variable_ref) is Some,
        wave_variable(wc, items[sources.last().0]->Variable_0.variable_ref)->Some_0.loaded,
        value_at_or_before(
            wave_variable(wc, items[sources.last().0]->Variable_0.variable_ref)->Some_0.changes@,
            time,
        ) == Some(ValueView::Num(v)),
        v < pow2(width_of(wave_variable(wc, items[sources.last().0]->Variable_0.variable_ref)->Some_0) as nat),
        width_of(wave_variable(wc, items[sources.last().0]->Variable_0.variable_ref)->Some_0) >= 1,
        bus_fold(items, wc, sources, time).1 <= u32::MAX,
        match bus_fold(items, wc, sources.drop_last(), time).0 {
            None => true,
            Some(ValueView::Num(a)) => a < pow2(bus_fold(items, wc, sources.drop_last(), time).1),
            Some(ValueView::Bits(_)) => false,
        },
    ensures
        ({
            let w = width_of(wave_variable(wc, items[sources.last().0]->Variable_0.variable_ref)->Some_0);
            let offset = bus_fold(items, wc, sources.drop_last(), time).1;
            let bus = bus_fold(items, wc, sources, time).0->Some_0;
            &&& bus_fold(items, wc, sources, time).0 is Some
            &&& extract_bits_spec(bus, total, offset as u32, (offset + w - 1) as u32) == ValueView::Num(v)
        }),
{
    let w = width_of(wave_variable(wc, items[sources.last().0]->Variable_0.variable_ref)->Some_0);
    let prev = bus_fold(items, wc, sources.drop_last(), time);
    let offset = prev.1;
    let acc: Option<nat> = match prev.0 {
        Some(ValueView::Num(a)) => Some(a),
        _ => None,
    };
    lemma_split_field_recovers_bus_source(acc, v, w, offset as u32, total);
}

} // verus!
