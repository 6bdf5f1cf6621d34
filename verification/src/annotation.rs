//! Annotations of the waveform view (arrows and rectangles), their groups,
//! and the annotation list.
use vstd::prelude::*;
use vstd::string::*;

use crate::text::{
    decimal, decimal_string, lemma_seq_lt_irreflexive, lemma_seq_lt_total, seq_lt, signed_decimal,
    signed_decimal_string, str_lt, trim_whitespace, trim_ws,
};
use crate::bignum::{bigint_add, bigint_div_u32, bigint_lt, div_toward_zero, SignedBigInt};
use crate::wave::{DisplayedItemRef, WaveData};

verus! {

/// What every annotation has: an id, a name, a group and a visibility.
pub struct AnnotationData {
    pub id: u64,
    pub group_name: Option<String>,
    pub visible: bool,
    pub name: String,
}

impl AnnotationData {
    /// A visible annotation without a group.
    pub fn new(id: u64, name: String) -> (r: Self)
        ensures
            r.id == id,
            r.name == name,
            r.group_name.is_none(),
            r.visible,
    {
        AnnotationData { id, group_name: None, visible: true, name }
    }
}

/// `"{kind} {num}"`, the name a new annotation gets.
pub open spec fn default_name(kind: Seq<char>, num: i32) -> Seq<char> {
    kind + seq![' '] + signed_decimal(num as int)
}

fn numbered_name(kind: &str, num: i32) -> (r: String)
    ensures
        r@ == default_name(kind@, num),
{
    proof { reveal_strlit(" "); }
    let mut s = String::from_str(kind);
    s.append(" ");
    assert(" "@ =~= seq![' ']);
    s.append(signed_decimal_string(num as i64).as_str());
    s
}

/// The midpoint of two times, rounded toward zero as integer division does.
pub open spec fn midpoint(a: int, b: int) -> int {
    div_toward_zero(a + b, 2)
}

fn midpoint_of(a: &SignedBigInt, b: &SignedBigInt) -> (r: SignedBigInt)
    ensures
        r@ == midpoint(a@, b@),
{
    let sum = bigint_add(a.bytes.as_slice(), b.bytes.as_slice());
    SignedBigInt { bytes: bigint_div_u32(sum.as_slice(), 2) }
}

// ── Arrows ───────────────────────────────────────────────────────────────────

/// Whether an arrow is drawn in full or as a dot.
#[derive(Debug, Clone, Copy, PartialEq, Eq, Structural)]
pub enum ArrowDisplayMode {
    FullArrow,
    Dot,
}

/// Whether an arrow has a head at its end only or at both ends.
#[derive(Debug, Clone, Copy, PartialEq, Eq, Structural)]
pub enum ArrowHeadMode {
    End,
    Double,
}

/// An end of an arrow: a time and the item it is attached to.
pub struct WavePoint {
    pub time: SignedBigInt,
    pub attached_item: Option<DisplayedItemRef>,
}

/// An arrow between two points of the waveform view.
pub struct ArrowAnnotation {
    pub from: WavePoint,
    pub to: WavePoint,
    pub display_mode: ArrowDisplayMode,
    pub head_mode: ArrowHeadMode,
    pub annotation_data: AnnotationData,
}

/// `a` toggled: a full arrow becomes a hidden dot, a dot a visible full arrow.
pub open spec fn toggled(a: ArrowAnnotation) -> ArrowAnnotation {
    if a.display_mode == ArrowDisplayMode::FullArrow {
        ArrowAnnotation {
            display_mode: ArrowDisplayMode::Dot,
            annotation_data: AnnotationData { visible: false, ..a.annotation_data },
            ..a
        }
    } else {
        ArrowAnnotation {
            display_mode: ArrowDisplayMode::FullArrow,
            annotation_data: AnnotationData { visible: true, ..a.annotation_data },
            ..a
        }
    }
}

/// `a` shown in full and visible, or as a hidden dot.
pub open spec fn with_visibility(a: ArrowAnnotation, visible: bool) -> ArrowAnnotation {
    ArrowAnnotation {
        display_mode: if visible {
            ArrowDisplayMode::FullArrow
        } else {
            ArrowDisplayMode::Dot
        },
        annotation_data: AnnotationData { visible, ..a.annotation_data },
        ..a
    }
}

impl ArrowAnnotation {
    /// A new arrow, drawn in full and named `"Arrow {num}"`.
    pub fn new(id: u64, from: WavePoint, to: WavePoint, head_mode: ArrowHeadMode, num: i32) -> (r: Self)
        ensures
            r.from == from,
            r.to == to,
            r.display_mode == ArrowDisplayMode::FullArrow,
            r.head_mode == head_mode,
            r.annotation_data.id == id,
            r.annotation_data.name@ == default_name("Arrow"@, num),
            r.annotation_data.group_name.is_none(),
            r.annotation_data.visible,
    {
        let name = numbered_name("Arrow", num);
        ArrowAnnotation {
            from,
            to,
            display_mode: ArrowDisplayMode::FullArrow,
            head_mode,
            annotation_data: AnnotationData::new(id, name),
        }
    }

    /// Draws the arrow as a dot.
    pub fn hide_arrow(&mut self)
        ensures
            final(self).display_mode == ArrowDisplayMode::Dot,
            final(self).from == old(self).from,
            final(self).to == old(self).to,
            final(self).head_mode == old(self).head_mode,
            final(self).annotation_data == old(self).annotation_data,
    {
        self.display_mode = ArrowDisplayMode::Dot;
    }

    /// Draws the arrow in full.
    pub fn show(&mut self)
        ensures
            final(self).display_mode == ArrowDisplayMode::FullArrow,
            final(self).from == old(self).from,
            final(self).to == old(self).to,
            final(self).head_mode == old(self).head_mode,
            final(self).annotation_data == old(self).annotation_data,
    {
        self.display_mode = ArrowDisplayMode::FullArrow;
    }

    /// Switches between the full arrow, which is visible, and the dot, which
    /// is not.
    pub fn toggle_arrow_visibility(&mut self)
        ensures
            *final(self) == toggled(*old(self)),
    {
        if self.display_mode == ArrowDisplayMode::FullArrow {
            self.hide_arrow();
            self.annotation_data.visible = false;
        } else {
            self.show();
            self.annotation_data.visible = true;
        }
    }

    /// Shows the arrow in full, or as a dot, and records whether it is visible.
    pub fn set_visibility(&mut self, visible: bool)
        ensures
            *final(self) == with_visibility(*old(self), visible),
    {
        if visible {
            self.show();
            self.annotation_data.visible = true;
        } else {
            self.hide_arrow();
            self.annotation_data.visible = false;
        }
    }

    /// The time shown for the arrow: midway between its ends.
    pub fn get_time_at_start(&self) -> (r: SignedBigInt)
        ensures
            r@ == midpoint(self.from.time@, self.to.time@),
    {
        midpoint_of(&self.from.time, &self.to.time)
    }

    /// Whether the arrow points at `removed_ref`.
    pub fn is_attached(&self, removed_ref: &DisplayedItemRef) -> (r: bool)
        ensures
            r == (self.to.attached_item == Some(*removed_ref)),
    {
        match self.to.attached_item {
            Some(item) => item == *removed_ref,
            None => false,
        }
    }
}

// ── Rectangles ───────────────────────────────────────────────────────────────

/// A corner of a rectangle: a time and the item it is anchored to.
pub struct AnchorPoint {
    pub wave: Option<DisplayedItemRef>,
    pub time: SignedBigInt,
}

/// A rectangle over a time span of the waveform view.
pub struct RectAnnotation {
    pub annotation_data: AnnotationData,
    pub from: AnchorPoint,
    pub to: AnchorPoint,
}

impl RectAnnotation {
    /// A new rectangle named `"Rectangle {num}"`.
    pub fn new(
        id: u64,
        time_at_start: SignedBigInt,
        time_at_end: SignedBigInt,
        wave_from: Option<DisplayedItemRef>,
        wave_to: Option<DisplayedItemRef>,
        num: i32,
    ) -> (r: Self)
        ensures
            r.annotation_data.id == id,
            r.annotation_data.name@ == default_name("Rectangle"@, num),
            r.annotation_data.group_name.is_none(),
            r.annotation_data.visible,
            r.from == (AnchorPoint { wave: wave_from, time: time_at_start }),
            r.to == (AnchorPoint { wave: wave_to, time: time_at_end }),
    {
        let name = numbered_name("Rectangle", num);
        RectAnnotation {
            annotation_data: AnnotationData::new(id, name),
            from: AnchorPoint { wave: wave_from, time: time_at_start },
            to: AnchorPoint { wave: wave_to, time: time_at_end },
        }
    }

    pub fn get_id(&self) -> (r: u64)
        ensures
            r == self.annotation_data.id,
    {
        self.annotation_data.id
    }

    /// The time shown for the rectangle: midway between its sides.
    pub fn get_time_at_start(&self) -> (r: SignedBigInt)
        ensures
            r@ == midpoint(self.from.time@, self.to.time@),
    {
        midpoint_of(&self.from.time, &self.to.time)
    }

    pub fn get_time_at_end(&self) -> (r: SignedBigInt)
        ensures
            r@ == self.to.time@,
    {
        self.to.time.duplicate()
    }

    /// Whether either corner is anchored to `removed_ref`.
    pub fn is_attached(&self, removed_ref: &DisplayedItemRef) -> (r: bool)
        ensures
            r == (self.from.wave == Some(*removed_ref) || self.to.wave == Some(*removed_ref)),
    {
        let from_attached = match self.from.wave {
            Some(item) => item == *removed_ref,
            None => false,
        };
        let to_attached = match self.to.wave {
            Some(item) => item == *removed_ref,
            None => false,
        };
        from_attached || to_attached
    }
}

// ── Adding annotations by dragging ───────────────────────────────────────────

/// The corners of the rectangle that a drag adds: its span runs from the
/// earlier time to the later one, and each corner keeps the item under it.
pub struct DraggedRectangle {
    pub time_at_start: SignedBigInt,
    pub time_at_end: SignedBigInt,
    pub wave_from: Option<DisplayedItemRef>,
    pub wave_to: Option<DisplayedItemRef>,
}

/// The rectangle of a drag that starts at `first_time` over `first_wave`
/// and ends at `second_time` over `second_wave`.
pub fn dragged_rectangle(
    first_time: SignedBigInt,
    first_wave: Option<DisplayedItemRef>,
    second_time: SignedBigInt,
    second_wave: Option<DisplayedItemRef>,
) -> (r: DraggedRectangle)
    ensures
        first_time@ < second_time@ ==> r == (DraggedRectangle {
            time_at_start: first_time,
            time_at_end: second_time,
            wave_from: first_wave,
            wave_to: second_wave,
        }),
        !(first_time@ < second_time@) ==> r == (DraggedRectangle {
            time_at_start: second_time,
            time_at_end: first_time,
            wave_from: second_wave,
            wave_to: first_wave,
        }),
        r.time_at_start@ <= r.time_at_end@,
{
    if bigint_lt(first_time.bytes.as_slice(), second_time.bytes.as_slice()) {
        DraggedRectangle {
            time_at_start: first_time,
            time_at_end: second_time,
            wave_from: first_wave,
            wave_to: second_wave,
        }
    } else {
        DraggedRectangle {
            time_at_start: second_time,
            time_at_end: first_time,
            wave_from: second_wave,
            wave_to: first_wave,
        }
    }
}

/// The arrow that a drag from `from` to `to` adds: none unless it ends on
/// an item; double headed when asked for, else with a head at its end.
pub fn dragged_arrow(from: WavePoint, to: WavePoint, double_headed: bool) -> (r: Option<
    (WavePoint, WavePoint, ArrowHeadMode),
>)
    ensures
        to.attached_item is None ==> r is None,
        to.attached_item is Some ==> r == Some(
            (from, to, if double_headed {
                ArrowHeadMode::Double
            } else {
                ArrowHeadMode::End
            }),
        ),
{
    if to.attached_item.is_none() {
        return None;
    }
    let head_mode = if double_headed {
        ArrowHeadMode::Double
    } else {
        ArrowHeadMode::End
    };
    Some((from, to, head_mode))
}

// ── Either kind ──────────────────────────────────────────────────────────────

/// An annotation of the waveform view.
pub enum Annotation {
    Arrow(ArrowAnnotation),
    Rect(RectAnnotation),
}

impl Annotation {
    pub open spec fn data(&self) -> AnnotationData {
        match self {
            Annotation::Arrow(a) => a.annotation_data,
            Annotation::Rect(r) => r.annotation_data,
        }
    }

    pub fn get_id(&self) -> (r: u64)
        ensures
            r == self.data().id,
    {
        match self {
            Annotation::Arrow(a) => a.annotation_data.id,
            Annotation::Rect(r) => r.annotation_data.id,
        }
    }

    /// "Arrow" or "Rectangle".
    pub fn get_type(&self) -> (r: &'static str)
        ensures
            r@ == (match self {
                Annotation::Arrow(_) => "Arrow"@,
                Annotation::Rect(_) => "Rectangle"@,
            }),
    {
        match self {
            Annotation::Arrow(_) => "Arrow",
            Annotation::Rect(_) => "Rectangle",
        }
    }

    pub fn set_name(&mut self, name: String)
        ensures
            final(self).data() == (AnnotationData { name, ..old(self).data() }),
            *final(self) is Arrow <==> *old(self) is Arrow,
    {
        match self {
            Annotation::Arrow(a) => a.annotation_data.name = name,
            Annotation::Rect(r) => r.annotation_data.name = name,
        }
    }

    pub fn get_name(&self) -> (r: String)
        ensures
            r == self.data().name,
    {
        match self {
            Annotation::Arrow(a) => a.annotation_data.name.clone(),
            Annotation::Rect(r) => r.annotation_data.name.clone(),
        }
    }

    pub fn set_group_name(&mut self, name: Option<String>)
        ensures
            final(self).data() == (AnnotationData { group_name: name, ..old(self).data() }),
            *final(self) is Arrow <==> *old(self) is Arrow,
    {
        match self {
            Annotation::Arrow(a) => a.annotation_data.group_name = name,
            Annotation::Rect(r) => r.annotation_data.group_name = name,
        }
    }

    pub fn get_group_name(&self) -> (r: Option<String>)
        ensures
            r == self.data().group_name,
    {
        match self {
            Annotation::Arrow(a) => clone_group(&a.annotation_data.group_name),
            Annotation::Rect(r) => clone_group(&r.annotation_data.group_name),
        }
    }

    /// Shows or hides the annotation; an arrow is also drawn in full or as a
    /// dot.
    pub fn set_visibility(&mut self, visible: bool)
        ensures
            final(self).data() == (AnnotationData { visible, ..old(self).data() }),
            *final(self) is Arrow <==> *old(self) is Arrow,
    {
        match self {
            Annotation::Arrow(a) => a.set_visibility(visible),
            Annotation::Rect(r) => r.annotation_data.visible = visible,
        }
    }

    pub fn is_visible(&self) -> (r: bool)
        ensures
            r == self.data().visible,
    {
        match self {
            Annotation::Arrow(a) => a.annotation_data.visible,
            Annotation::Rect(r) => r.annotation_data.visible,
        }
    }

    pub fn get_time_at_start(&self) -> (r: SignedBigInt)
        ensures
            r@ == (match self {
                Annotation::Arrow(a) => midpoint(a.from.time@, a.to.time@),
                Annotation::Rect(r) => midpoint(r.from.time@, r.to.time@),
            }),
    {
        match self {
            Annotation::Arrow(a) => a.get_time_at_start(),
            Annotation::Rect(r) => r.get_time_at_start(),
        }
    }

    /// Whether the annotation is attached to `removed_ref`, so that removing
    /// that item removes the annotation.
    pub fn is_attached(&self, removed_ref: &DisplayedItemRef) -> (r: bool)
        ensures
            r == (match self {
                Annotation::Arrow(a) => a.to.attached_item == Some(*removed_ref),
                Annotation::Rect(r) => r.from.wave == Some(*removed_ref) || r.to.wave == Some(
                    *removed_ref,
                ),
            }),
    {
        match self {
            Annotation::Arrow(a) => a.is_attached(removed_ref),
            Annotation::Rect(r) => r.is_attached(removed_ref),
        }
    }
}

fn clone_group(g: &Option<String>) -> (r: Option<String>)
    ensures
        r == *g,
{
    match g {
        Some(s) => Some(s.clone()),
        None => None,
    }
}

fn same_group(a: &Option<String>, b: &Option<String>) -> (r: bool)
    ensures
        r == (match (a, b) {
            (Some(x), Some(y)) => x@ == y@,
            (None, None) => true,
            _ => false,
        }),
{
    match (a, b) {
        (Some(x), Some(y)) => x.eq(y),
        (None, None) => true,
        _ => false,
    }
}

// ── The annotations of a view ────────────────────────────────────────────────

/// `annotations` without those whose id is `id`, in their order.
pub open spec fn without_id(annotations: Seq<Annotation>, id: u64) -> Seq<Annotation>
    decreases annotations.len(),
{
    if annotations.len() == 0 {
        Seq::empty()
    } else if annotations.last().data().id == id {
        without_id(annotations.drop_last(), id)
    } else {
        without_id(annotations.drop_last(), id).push(annotations.last())
    }
}

/// The name shown for the annotations without a group.
pub open spec fn ungrouped_name() -> Seq<char> {
    "Ungrouped"@
}

/// Whether an annotation in group `g` belongs under the heading of `filter`.
pub open spec fn in_group(g: Option<String>, filter: Option<String>) -> bool {
    match (g, filter) {
        (Some(x), Some(y)) => x@ == y@,
        (None, None) => true,
        _ => false,
    }
}

/// The positions of the annotations in group `filter`, in order.
pub open spec fn group_members(annotations: Seq<Annotation>, filter: Option<String>) -> Seq<usize>
    decreases annotations.len(),
{
    if annotations.len() == 0 {
        Seq::empty()
    } else if in_group(annotations.last().data().group_name, filter) {
        group_members(annotations.drop_last(), filter).push((annotations.len() - 1) as usize)
    } else {
        group_members(annotations.drop_last(), filter)
    }
}

/// One heading of the annotation list.
pub struct GroupSection {
    /// The group, or `None` for the annotations without one.
    pub group: Option<String>,
    /// The group's name, or "Ungrouped".
    pub display_name: String,
    /// The positions in `WaveData::annotations` of the group's annotations.
    pub items: Vec<usize>,
    /// Whether any of them is visible (which the eye icon shows).
    pub any_visible: bool,
}

/// The section of the annotation list for `filter`: absent for the
/// ungrouped annotations when there are none.
pub open spec fn section_spec(annotations: Seq<Annotation>, filter: Option<String>) -> Option<
    (Seq<char>, Seq<usize>, bool),
> {
    let members = group_members(annotations, filter);
    if filter is None && members.len() == 0 {
        None
    } else {
        Some(
            (
                match filter {
                    Some(g) => g@,
                    None => ungrouped_name(),
                },
                members,
                exists|i: int| 0 <= i < members.len() && annotations[members[i] as int].data().visible,
            ),
        )
    }
}

/// Group names sorted without repetition: each comes before the next.
pub open spec fn strictly_sorted(names: Seq<Seq<char>>) -> bool {
    forall|i: int| 0 <= i < names.len() - 1 ==> seq_lt(#[trigger] names[i], names[i + 1])
}

pub open spec fn names_of(v: Seq<String>) -> Seq<Seq<char>> {
    v.map_values(|s: String| s@)
}

/// The annotation list, which shows nothing by itself.
pub struct AnnotationList {}

impl Default for AnnotationList {
    fn default() -> (r: Self) {
        AnnotationList {}
    }
}

impl WaveData {
    /// Removes the annotations whose id is `id`.
    pub fn delete_annotation(&mut self, id: u64)
        ensures
            final(self).annotations@ == without_id(old(self).annotations@, id),
            final(self).displayed_items == old(self).displayed_items,
            final(self).annotation_groups == old(self).annotation_groups,
    {
        let ghost initial = self.annotations@;
        let ghost mut k: int = 0;
        let mut i: usize = 0;
        assert(initial.take(0) =~= Seq::<Annotation>::empty());
        assert(self.annotations@.take(0) =~= Seq::<Annotation>::empty());
        assert(self.annotations@.skip(0) =~= initial.skip(0));
        while i < self.annotations.len()
            invariant
                i <= self.annotations@.len(),
                self.displayed_items == old(self).displayed_items,
                self.annotation_groups == old(self).annotation_groups,
                initial == old(self).annotations@,
                0 <= k <= initial.len(),
                self.annotations@.take(i as int) == without_id(initial.take(k), id),
                self.annotations@.skip(i as int) == initial.skip(k),
            decreases self.annotations@.len() - i,
        {
            let ghost before = self.annotations@;
            assert(before.skip(i as int).len() == initial.skip(k).len());
            assert(k < initial.len());
            assert(before[i as int] == initial[k]) by {
                assert(before.skip(i as int)[0] == initial.skip(k)[0]);
            }
            assert(initial.take(k + 1).drop_last() =~= initial.take(k));
            assert(before.skip(i as int).drop_first() =~= before.skip(i + 1));
            assert(initial.skip(k).drop_first() =~= initial.skip(k + 1));
            if self.annotations[i].get_id() == id {
                self.annotations.remove(i);
                assert(self.annotations@.take(i as int) =~= before.take(i as int));
                assert(self.annotations@.skip(i as int) =~= initial.skip(k + 1));
            } else {
                i = i + 1;
                assert(self.annotations@.take(i as int) =~= before.take(i - 1).push(initial[k]));
                assert(self.annotations@.skip(i as int) =~= initial.skip(k + 1));
            }
            proof {
                k = k + 1;
            }
        }
        proof {
            assert(self.annotations@.skip(i as int).len() == 0);
            assert(initial.take(k) =~= initial);
            assert(self.annotations@.take(i as int) =~= self.annotations@);
        }
    }

    /// The section of the annotation list for the group `group_filter`
    /// (`None`: the annotations without a group, left out when there are
    /// none).
    pub fn group_section(&self, group_filter: &Option<String>) -> (r: Option<GroupSection>)
        ensures
            match r {
                Some(sec) => section_spec(self.annotations@, *group_filter) == Some(
                    (sec.display_name@, sec.items@, sec.any_visible),
                ) && sec.group == *group_filter,
                None => section_spec(self.annotations@, *group_filter).is_none(),
            },
    {
        let mut items: Vec<usize> = Vec::new();
        let mut any_visible = false;
        let mut i: usize = 0;
        while i < self.annotations.len()
            invariant
                i <= self.annotations@.len(),
                items@ == group_members(self.annotations@.take(i as int), *group_filter),
                forall|j: int| 0 <= j < items@.len() ==> #[trigger] items@[j] < i,
                any_visible == exists|j: int|
                    0 <= j < items@.len() && self.annotations@[items@[j] as int].data().visible,
            decreases self.annotations@.len() - i,
        {
            let ghost prefix = self.annotations@.take(i + 1);
            assert(prefix.drop_last() =~= self.annotations@.take(i as int));
            assert(prefix.last() == self.annotations@[i as int]);
            let ghost old_items = items@;
            let g = self.annotations[i].get_group_name();
            if same_group(&g, group_filter) {
                items.push(i);
                assert(items@ == old_items.push(i));
                if self.annotations[i].is_visible() {
                    any_visible = true;
                    assert(self.annotations@[items@[items@.len() - 1] as int].data().visible);
                } else {
                    assert forall|j: int| 0 <= j < items@.len() && self.annotations@[items@[j] as int].data().visible implies 0 <= j < old_items.len() && self.annotations@[old_items[j] as int].data().visible by {
                        if j == old_items.len() {
                            assert(items@[j] == i);
                        }
                    }
                }
            }
            i = i + 1;
        }
        assert(self.annotations@.take(i as int) =~= self.annotations@);
        if group_filter.is_none() && items.len() == 0 {
            return None;
        }
        let display_name = match group_filter {
            Some(g) => g.clone(),
            None => String::from_str("Ungrouped"),
        };
        Some(GroupSection { group: clone_group(group_filter), display_name, items, any_visible })
    }

    /// The groups of the annotation list: the created groups in sorted order
    /// without repetition.
    pub fn sorted_group_names(&self) -> (r: Vec<String>)
        ensures
            strictly_sorted(names_of(r@)),
            names_of(r@).to_set() == names_of(self.annotation_groups@).to_set(),
    {
        let mut sorted: Vec<String> = Vec::new();
        let mut i: usize = 0;
        while i < self.annotation_groups.len()
            invariant
                i <= self.annotation_groups@.len(),
                strictly_sorted(names_of(sorted@)),
                names_of(sorted@).to_set() == names_of(self.annotation_groups@.take(i as int)).to_set(),
            decreases self.annotation_groups@.len() - i,
        {
            let name = &self.annotation_groups[i];
            let ghost before = names_of(sorted@);
            let mut k: usize = 0;
            while k < sorted.len() && str_lt(sorted[k].as_str(), name.as_str())
                invariant
                    k <= sorted@.len(),
                    before == names_of(sorted@),
                    forall|j: int| 0 <= j < k ==> seq_lt(#[trigger] before[j], name@),
                decreases sorted@.len() - k,
            {
                k = k + 1;
            }
            assert(names_of(self.annotation_groups@.take(i + 1)) =~= names_of(
                self.annotation_groups@.take(i as int),
            ).push(name@));
            if k < sorted.len() && sorted[k] == *name {
                assert(before[k as int] == name@);
                assert(before.to_set().insert(name@) =~= before.to_set());
            } else {
                proof {
                    if k < sorted@.len() {
                        assert(!seq_lt(before[k as int], name@));
                        lemma_seq_lt_total(before[k as int], name@);
                    }
                }
                sorted.insert(k, name.clone());
                proof {
                    let after = names_of(sorted@);
                    assert(after =~= before.take(k as int).push(name@) + before.skip(k as int));
                    assert forall|j: int| 0 <= j < after.len() - 1 implies seq_lt(
                        #[trigger] after[j],
                        after[j + 1],
                    ) by {
                        if j < k - 1 {
                            assert(after[j] == before[j] && after[j + 1] == before[j + 1]);
                        } else if j == k - 1 {
                        } else if j == k {
                        } else {
                            assert(after[j] == before[j - 1] && after[j + 1] == before[j]);
                        }
                    }
                    assert(after.to_set() =~= before.to_set().insert(name@)) by {
                        assert forall|x| after.to_set().contains(x) implies before.to_set().insert(
                            x,
                        ).contains(x) by {}
                        assert forall|x| #[trigger] before.to_set().insert(name@).contains(x) implies after.to_set().contains(x) by {
                            if x == name@ {
                                assert(after[k as int] == x);
                            } else {
                                let j = choose|j: int| 0 <= j < before.len() && before[j] == x;
                                if j < k {
                                    assert(after[j] == x);
                                } else {
                                    assert(after[j + 1] == x);
                                }
                            }
                        }
                        assert forall|x| #[trigger] after.to_set().contains(x) implies before.to_set().insert(name@).contains(x) by {
                            let j = choose|j: int| 0 <= j < after.len() && after[j] == x;
                            if j < k {
                                assert(before[j] == x);
                            } else if j > k {
                                assert(before[j - 1] == x);
                            }
                        }
                    }
                }
            }
            i = i + 1;
            proof {
                let t = names_of(self.annotation_groups@.take(i as int));
                assert(self.annotation_groups@.take(i as int) =~= self.annotation_groups@.take(
                    i - 1,
                ).push(self.annotation_groups@[i - 1]));
                assert(t =~= names_of(self.annotation_groups@.take(i - 1)).push(name@));
                names_of(self.annotation_groups@.take(i - 1)).lemma_push_to_set_commute(name@);
                assert(t.to_set() =~= names_of(self.annotation_groups@.take(i - 1)).to_set().insert(
                    name@,
                ));
            }
        }
        assert(self.annotation_groups@.take(i as int) =~= self.annotation_groups@);
        sorted
    }

    /// The sections of the annotation list in order: one for each created
    /// group, sorted by name, then the annotations without a group, if any.
    pub fn annotation_group_sections(&self) -> (r: Vec<GroupSection>)
        ensures
            exists|names: Seq<String>|
                {
                    &&& strictly_sorted(names_of(names))
                    &&& names_of(names).to_set() == names_of(self.annotation_groups@).to_set()
                    &&& r@.len() == names.len() + (if section_spec(self.annotations@, None) is Some {
                        1int
                    } else {
                        0
                    })
                    &&& forall|j: int|
                        0 <= j < names.len() ==> section_spec(self.annotations@, Some(names[j]))
                            == Some(
                            (
                                (#[trigger] r@[j]).display_name@,
                                r@[j].items@,
                                r@[j].any_visible,
                            ),
                        ) && r@[j].group == Some(names[j])
                    &&& section_spec(self.annotations@, None) matches Some(sec) ==> sec == (
                        r@[names.len() as int].display_name@,
                        r@[names.len() as int].items@,
                        r@[names.len() as int].any_visible,
                    ) && r@[names.len() as int].group.is_none()
                },
    {
        let names = self.sorted_group_names();
        let mut sections: Vec<GroupSection> = Vec::new();
        let mut i: usize = 0;
        while i < names.len()
            invariant
                i <= names@.len(),
                sections@.len() == i,
                forall|j: int|
                    0 <= j < i ==> section_spec(self.annotations@, Some(names@[j])) == Some(
                        (
                            (#[trigger] sections@[j]).display_name@,
                            sections@[j].items@,
                            sections@[j].any_visible,
                        ),
                    ) && sections@[j].group == Some(names@[j]),
            decreases names@.len() - i,
        {
            let g = Some(names[i].clone());
            match self.group_section(&g) {
                Some(sec) => sections.push(sec),
                None => {
                    assert(false);
                },
            }
            i = i + 1;
        }
        match self.group_section(&None) {
            Some(sec) => sections.push(sec),
            None => {},
        }
        assert(names@.len() == i);
        sections
    }
}

// ── What the annotation list asks for ────────────────────────────────────────

/// A message that the annotation list sends.
pub enum AnnotationListMessage {
    CreateAnnotationGroup(String),
    DeleteAnnotationGroup(String),
    /// Delete every annotation of the named group.
    DeleteAllAnnotationInGroup(String),
    /// Show or hide every annotation of a group (`None`: those without one).
    SetGroupVisibility(Option<String>, bool),
    UpdateAnnotationName(u64, String),
}

/// What the group name field asks for when a group is created (or, with
/// `delete`, deleted): nothing while the field is empty, else the group
/// named by the field without surrounding whitespace.
pub fn group_field_message(buffer: &str, delete: bool) -> (r: Option<AnnotationListMessage>)
    ensures
        buffer@.len() == 0 ==> r.is_none(),
        buffer@.len() > 0 ==> match r {
            Some(AnnotationListMessage::CreateAnnotationGroup(g)) => !delete && g@ == trim_ws(buffer@),
            Some(AnnotationListMessage::DeleteAnnotationGroup(g)) => delete && g@ == trim_ws(buffer@),
            _ => false,
        },
{
    if buffer.is_empty() {
        return None;
    }
    let name = trim_whitespace(buffer).to_owned();
    if delete {
        Some(AnnotationListMessage::DeleteAnnotationGroup(name))
    } else {
        Some(AnnotationListMessage::CreateAnnotationGroup(name))
    }
}

/// Renaming annotation `id` to what was typed, without surrounding
/// whitespace.
pub fn rename_message(id: u64, buffer: &str) -> (r: AnnotationListMessage)
    ensures
        r matches AnnotationListMessage::UpdateAnnotationName(i, n) && i == id && n@ == trim_ws(buffer@),
{
    AnnotationListMessage::UpdateAnnotationName(id, trim_whitespace(buffer).to_owned())
}

impl GroupSection {
    /// The heading: `"{display_name} ({number of annotations})"`.
    pub fn heading(&self) -> (r: String)
        ensures
            r@ == self.display_name@ + " ("@ + decimal(self.items@.len()) + ")"@,
    {
        let mut r = self.display_name.clone();
        r.append(" (");
        r.append(decimal_string(self.items.len() as u64).as_str());
        r.append(")");
        r
    }

    /// The heading's button that deletes all annotations of the group: on
    /// every heading not named "Ungrouped", for the group (or the empty name
    /// where the section has none).
    pub fn delete_all_message(&self) -> (r: Option<AnnotationListMessage>)
        ensures
            self.display_name@ == ungrouped_name() ==> r.is_none(),
            self.display_name@ != ungrouped_name() ==> (r matches Some(
                AnnotationListMessage::DeleteAllAnnotationInGroup(g),
            ) && g@ == match self.group {
                Some(name) => name@,
                None => Seq::<char>::empty(),
            }),
    {
        let ungrouped = String::from_str("Ungrouped");
        if self.display_name.eq(&ungrouped) {
            return None;
        }
        let g = match &self.group {
            Some(name) => name.clone(),
            None => String::new(),
        };
        Some(AnnotationListMessage::DeleteAllAnnotationInGroup(g))
    }

    /// The heading's eye button: hides the whole group when any of it is
    /// visible, and shows it otherwise.
    pub fn toggle_visibility_message(&self) -> (r: AnnotationListMessage)
        ensures
            r matches AnnotationListMessage::SetGroupVisibility(g, v) && g == self.group && v
                == !self.any_visible,
    {
        AnnotationListMessage::SetGroupVisibility(clone_group(&self.group), !self.any_visible)
    }
}

// ── Laws ─────────────────────────────────────────────────────────────────────

/// The time shown for an annotation lies between its two times.
pub proof fn lemma_midpoint_between(a: int, b: int)
    ensures
        (if a <= b { a } else { b }) <= midpoint(a, b) <= (if a <= b { b } else { a }),
{
}

/// How many of `annotations` have the id `id`.
pub open spec fn count_id(annotations: Seq<Annotation>, id: u64) -> nat
    decreases annotations.len(),
{
    if annotations.len() == 0 {
        0
    } else {
        count_id(annotations.drop_last(), id) + if annotations.last().data().id == id {
            1nat
        } else {
            0nat
        }
    }
}

/// After deleting an id no annotation with that id is left, all the others
/// are kept, and deleting the same id again changes nothing.
pub proof fn lemma_delete_annotation(annotations: Seq<Annotation>, id: u64)
    ensures
        forall|i: int|
            0 <= i < without_id(annotations, id).len() ==> (#[trigger] without_id(
                annotations,
                id,
            )[i]).data().id != id,
        without_id(annotations, id).len() + count_id(annotations, id) == annotations.len(),
        without_id(without_id(annotations, id), id) == without_id(annotations, id),
    decreases annotations.len(),
{
    if annotations.len() > 0 {
        let rest = annotations.drop_last();
        lemma_delete_annotation(rest, id);
        let w = without_id(rest, id);
        if annotations.last().data().id != id {
            assert(without_id(annotations, id) == w.push(annotations.last()));
            assert(w.push(annotations.last()).drop_last() =~= w);
        }
    }
}

/// Toggling an arrow twice draws it as before, and gives it back entirely
/// when its visibility matched how it was drawn; a toggled arrow is visible
/// exactly when drawn in full. Setting the visibility is the same as
/// toggling an arrow drawn the other way.
pub proof fn lemma_toggle_twice(a: ArrowAnnotation, visible: bool)
    ensures
        toggled(toggled(a)).display_mode == a.display_mode,
        a.annotation_data.visible == (a.display_mode == ArrowDisplayMode::FullArrow) ==> toggled(
            toggled(a),
        ) == a,
        toggled(a).annotation_data.visible == (toggled(a).display_mode == ArrowDisplayMode::FullArrow),
        with_visibility(a, visible).annotation_data.visible == visible,
        a.display_mode != (if visible {
            ArrowDisplayMode::FullArrow
        } else {
            ArrowDisplayMode::Dot
        }) ==> with_visibility(a, visible) == toggled(a),
{
}

/// Whether annotation `a` belongs under the heading of `filter`: its group
/// has the filter's name, or both are absent.
pub open spec fn belongs_to(a: Annotation, filter: Option<String>) -> bool {
    match (a.data().group_name, filter) {
        (Some(x), Some(y)) => x@ == y@,
        (None, None) => true,
        _ => false,
    }
}

/// The positions listed for a group are exactly those of the annotations
/// that belong to it, each once, in increasing order.
pub proof fn lemma_group_members_exact(annotations: Seq<Annotation>, filter: Option<String>)
    requires
        annotations.len() <= usize::MAX,
    ensures
        forall|i: int|
            0 <= i < annotations.len() ==> (group_members(annotations, filter).contains(i as usize)
                <==> belongs_to(#[trigger] annotations[i], filter)),
        forall|j: int|
            0 <= j < group_members(annotations, filter).len() ==> #[trigger] group_members(
                annotations,
                filter,
            )[j] < annotations.len(),
        forall|j: int, k: int|
            0 <= j < k < group_members(annotations, filter).len() ==> #[trigger] group_members(
                annotations,
                filter,
            )[j] < #[trigger] group_members(annotations, filter)[k],
    decreases annotations.len(),
{
    if annotations.len() > 0 {
        let prefix = annotations.drop_last();
        let n = annotations.len();
        lemma_group_members_exact(prefix, filter);
        let mp = group_members(prefix, filter);
        let m = group_members(annotations, filter);
        let last_in = belongs_to(annotations[n - 1], filter);
        assert(annotations.last() == annotations[n - 1]);
        if last_in {
            assert(m == mp.push((n - 1) as usize));
        } else {
            assert(m == mp);
        }
        assert forall|j: int| 0 <= j < m.len() implies #[trigger] m[j] < n by {
            if j < mp.len() {
                assert(m[j] == mp[j]);
            }
        }
        assert forall|j: int, k: int| 0 <= j < k < m.len() implies #[trigger] m[j] < #[trigger] m[k] by {
            assert(m[j] == mp[j]);
            if k < mp.len() {
                assert(m[k] == mp[k]);
            }
        }
        assert forall|i: int| 0 <= i < n implies (m.contains(i as usize) <==> belongs_to(
            #[trigger] annotations[i],
            filter,
        )) by {
            if i < n - 1 {
                assert(prefix[i] == annotations[i]);
                if m.contains(i as usize) {
                    let j = choose|j: int| 0 <= j < m.len() && m[j] == i as usize;
                    if j < mp.len() {
                        assert(m[j] == mp[j]);
                        assert(mp.contains(i as usize));
                    } else {
                        assert(m[j] == (n - 1) as usize);
                    }
                }
                if mp.contains(i as usize) {
                    let j = choose|j: int| 0 <= j < mp.len() && mp[j] == i as usize;
                    assert(m[j] == mp[j]);
                    assert(m.contains(i as usize));
                }
            } else {
                if last_in {
                    assert(m[m.len() - 1] == (n - 1) as usize);
                    assert(m.contains(i as usize));
                }
                if m.contains(i as usize) {
                    let j = choose|j: int| 0 <= j < m.len() && m[j] == i as usize;
                    if j < mp.len() {
                        assert(m[j] == mp[j]);
                        assert(mp[j] < n - 1);
                    }
                }
            }
        }
    }
}

/// A group's eye icon shows exactly when some annotation of the group is
/// visible, wherever it stands among the group's annotations; the
/// ungrouped section is left out exactly when no annotation is ungrouped.
pub proof fn lemma_section_visible_iff_member_visible(annotations: Seq<Annotation>, filter: Option<String>)
    requires
        annotations.len() <= usize::MAX,
    ensures
        section_spec(annotations, filter) is None <==> (filter is None && forall|i: int|
            0 <= i < annotations.len() ==> !belongs_to(#[trigger] annotations[i], filter)),
        section_spec(annotations, filter) matches Some(sec) ==> (sec.2 <==> exists|i: int|
            0 <= i < annotations.len() && belongs_to(#[trigger] annotations[i], filter)
                && annotations[i].data().visible),
        section_spec(annotations, filter) matches Some(sec) ==> sec.0 == match filter {
            Some(g) => g@,
            None => "Ungrouped"@,
        },
        section_spec(annotations, filter) matches Some(sec) ==> forall|i: int|
            0 <= i < annotations.len() ==> (sec.1.contains(i as usize) <==> belongs_to(
                #[trigger] annotations[i],
                filter,
            )),
{
    lemma_group_members_exact(annotations, filter);
    let m = group_members(annotations, filter);
    if filter is None && m.len() == 0 {
        assert forall|i: int| 0 <= i < annotations.len() implies !belongs_to(
            #[trigger] annotations[i],
            filter,
        ) by {
            if belongs_to(annotations[i], filter) {
                assert(m.contains(i as usize));
            }
        }
    }
    if filter is None && m.len() > 0 {
        assert(m.contains(m[0]));
        assert(belongs_to(annotations[m[0] as int], filter));
    }
    let direct = exists|j: int| 0 <= j < m.len() && annotations[m[j] as int].data().visible;
    let any = exists|i: int|
        0 <= i < annotations.len() && belongs_to(#[trigger] annotations[i], filter)
            && annotations[i].data().visible;
    if direct {
        let j = choose|j: int| 0 <= j < m.len() && annotations[m[j] as int].data().visible;
        let i = m[j] as int;
        assert(m.contains(i as usize));
        assert(belongs_to(annotations[i], filter));
    }
    if any {
        let i = choose|i: int|
            0 <= i < annotations.len() && belongs_to(#[trigger] annotations[i], filter)
                && annotations[i].data().visible;
        assert(m.contains(i as usize));
        let j = choose|j: int| 0 <= j < m.len() && m[j] == i as usize;
        assert(m[j] as int == i);
        assert(annotations[m[j] as int].data().visible);
    }
}

} // verus!
