//! Groups and per-group aggregates.
//!
//! A group is an aggregation bucket: membership is derived from each
//! measurement's `group_id`, never stored on the group. The aggregate cell
//! caches the sum of the members' present areas and lengths (absent member
//! values are skipped, not treated as zero; an empty sum is absent), the
//! total point count, and the member count. Sums are held in meters
//! (square meters for areas), converted exactly from each member's unit.

use vstd::prelude::*;
use crate::cell::{MeasurementCell, MeasCellV, Slot};
use crate::error::{TakeoffError, TakeoffResult};
use crate::rat::add_spec;
use crate::unit::{Unit, UnitValue, UnitMagnitude, factor_rat, area_factor_rat};

verus! {

/// What a group measures.
#[derive(Debug, Clone, Copy, PartialEq, Eq, Structural)]
pub enum MeasurementType {
    Area,
    Length,
    Count,
}

/// An aggregation bucket for measurements sharing a `group_id`.
#[derive(Debug, Clone, PartialEq)]
pub struct Group {
    pub id: String,
    pub name: Option<String>,
    pub measurement_type: MeasurementType,
}

impl Group {
    /// An equal group with freshly owned storage.
    pub fn duplicate(&self) -> (r: Group)
        ensures
            r == *self,
    {
        let name = match &self.name {
            Some(n) => Some(n.clone()),
            None => None,
        };
        Group { id: self.id.clone(), name, measurement_type: self.measurement_type }
    }
}

/// Per-group holder of the cached aggregates, each behind a poisonable
/// slot.
#[derive(Debug, Clone, PartialEq)]
pub struct GroupCell {
    pub group: Group,
    pub area: Slot<Option<UnitValue>>,
    pub length: Slot<Option<UnitValue>>,
    pub points: Slot<Option<u128>>,
    pub count: Slot<Option<u64>>,
}

/// A member's cached area as the aggregation sees it: absent when the
/// slot is poisoned.
pub open spec fn member_area(c: MeasCellV) -> Option<UnitValue> {
    if c.area_poisoned {
        None
    } else {
        c.area
    }
}

/// A member's cached length as the aggregation sees it.
pub open spec fn member_length(c: MeasCellV) -> Option<UnitValue> {
    if c.length_poisoned {
        None
    } else {
        c.length
    }
}

/// The pinned sum of the first i members' present areas, in square
/// meters; `None` when a value leaves the representation bounds.
pub open spec fn area_fold(ms: Seq<MeasCellV>, i: int) -> Option<Option<UnitValue>>
    decreases i,
{
    if i <= 0 {
        Some(None)
    } else {
        match area_fold(ms, i - 1) {
            None => None,
            Some(acc) => {
                match member_area(ms[i - 1]) {
                    None => Some(acc),
                    Some(uv) => {
                        match crate::rat::mul_spec(
                            uv.value,
                            area_factor_rat(uv.unit, Unit::Meters),
                        ) {
                            None => None,
                            Some(v) => {
                                match acc {
                                    None => Some(
                                        Some(
                                            UnitValue {
                                                value: v,
                                                unit: Unit::Meters,
                                                magnitude: UnitMagnitude::Area,
                                            },
                                        ),
                                    ),
                                    Some(a) => {
                                        match add_spec(a.value, v) {
                                            None => None,
                                            Some(s) => Some(
                                                Some(
                                                    UnitValue {
                                                        value: s,
                                                        unit: Unit::Meters,
                                                        magnitude: UnitMagnitude::Area,
                                                    },
                                                ),
                                            ),
                                        }
                                    },
                                }
                            },
                        }
                    },
                }
            },
        }
    }
}

/// The pinned sum of the first i members' present lengths, in meters.
pub open spec fn length_fold(ms: Seq<MeasCellV>, i: int) -> Option<Option<UnitValue>>
    decreases i,
{
    if i <= 0 {
        Some(None)
    } else {
        match length_fold(ms, i - 1) {
            None => None,
            Some(acc) => {
                match member_length(ms[i - 1]) {
                    None => Some(acc),
                    Some(uv) => {
                        match crate::rat::mul_spec(
                            uv.value,
                            factor_rat(uv.unit, Unit::Meters),
                        ) {
                            None => None,
                            Some(v) => {
                                match acc {
                                    None => Some(
                                        Some(
                                            UnitValue {
                                                value: v,
                                                unit: Unit::Meters,
                                                magnitude: UnitMagnitude::Length,
                                            },
                                        ),
                                    ),
                                    Some(a) => {
                                        match add_spec(a.value, v) {
                                            None => None,
                                            Some(s) => Some(
                                                Some(
                                                    UnitValue {
                                                        value: s,
                                                        unit: Unit::Meters,
                                                        magnitude: UnitMagnitude::Length,
                                                    },
                                                ),
                                            ),
                                        }
                                    },
                                }
                            },
                        }
                    },
                }
            },
        }
    }
}

/// The total point count of the first i members.
pub open spec fn points_sum(ms: Seq<MeasCellV>, i: int) -> int
    decreases i,
{
    if i <= 0 {
        0
    } else {
        points_sum(ms, i - 1) + ms[i - 1].points
    }
}

/// The total point count is bounded by i members of at most u64::MAX
/// points each.
pub proof fn lemma_points_sum_bound(ms: Seq<MeasCellV>, i: int)
    requires
        0 <= i,
    ensures
        0 <= points_sum(ms, i) <= i * (u64::MAX as int),
    decreases i,
{
    if i <= 0 {
    } else {
        lemma_points_sum_bound(ms, i - 1);
        assert((i - 1) * (u64::MAX as int) + (u64::MAX as int) == i * (u64::MAX as int))
            by (nonlinear_arith);
    }
}

/// The aggregate point count: absent for an empty member list.
pub open spec fn points_agg(ms: Seq<MeasCellV>) -> Option<u128> {
    if ms.len() == 0 {
        None
    } else {
        Some(points_sum(ms, ms.len() as int) as u128)
    }
}

/// The group cell after a best-effort recompute over the given members:
/// each aggregate slot is rewritten when healthy and its sum
/// representable, and keeps its previous value otherwise.
pub open spec fn group_recompute_model(g: GroupCell, ms: Seq<MeasCellV>) -> GroupCell {
    let g1 = if !g.area.poisoned && area_fold(ms, ms.len() as int) is Some {
        GroupCell {
            area: Slot { value: area_fold(ms, ms.len() as int)->Some_0, poisoned: false },
            ..g
        }
    } else {
        g
    };
    let g2 = if !g1.length.poisoned && length_fold(ms, ms.len() as int) is Some {
        GroupCell {
            length: Slot {
                value: length_fold(ms, ms.len() as int)->Some_0,
                poisoned: false,
            },
            ..g1
        }
    } else {
        g1
    };
    let g3 = if !g2.points.poisoned {
        GroupCell { points: Slot { value: points_agg(ms), poisoned: false }, ..g2 }
    } else {
        g2
    };
    if !g3.count.poisoned && ms.len() <= u64::MAX {
        GroupCell {
            count: Slot { value: Some(ms.len() as u64), poisoned: false },
            ..g3
        }
    } else {
        g3
    }
}

/// Whether the recompute succeeded in full.
pub open spec fn group_recompute_ok(g: GroupCell, ms: Seq<MeasCellV>) -> bool {
    &&& !g.area.poisoned
    &&& !g.length.poisoned
    &&& !g.points.poisoned
    &&& !g.count.poisoned
    &&& area_fold(ms, ms.len() as int) is Some
    &&& length_fold(ms, ms.len() as int) is Some
}

/// The view sequence of a member list.
pub open spec fn views_of(ms: Seq<MeasurementCell>) -> Seq<MeasCellV> {
    ms.map_values(|c: MeasurementCell| c@)
}

impl GroupCell {
    /// Every stored aggregate scalar is a valid rational.
    pub open spec fn wf(self) -> bool {
        &&& (self.area.value is Some ==> self.area.value->Some_0.wf())
        &&& (self.length.value is Some ==> self.length.value->Some_0.wf())
    }

    /// A fresh aggregate cell with absent caches.
    pub fn new(group: Group) -> (r: GroupCell)
        ensures
            r.group == group,
            r.area == (Slot::<Option<UnitValue>> { value: None, poisoned: false }),
            r.length == (Slot::<Option<UnitValue>> { value: None, poisoned: false }),
            r.points == (Slot::<Option<u128>> { value: None, poisoned: false }),
            r.count == (Slot::<Option<u64>> { value: None, poisoned: false }),
    {
        GroupCell {
            group,
            area: Slot::new(None),
            length: Slot::new(None),
            points: Slot::new(None),
            count: Slot::new(None),
        }
    }

    /// An equal cell with freshly owned storage.
    pub fn duplicate(&self) -> (r: GroupCell)
        ensures
            r == *self,
    {
        GroupCell {
            group: self.group.duplicate(),
            area: Slot { value: self.area.value, poisoned: self.area.poisoned },
            length: Slot { value: self.length.value, poisoned: self.length.poisoned },
            points: Slot { value: self.points.value, poisoned: self.points.poisoned },
            count: Slot { value: self.count.value, poisoned: self.count.poisoned },
        }
    }

    /// Get the id of the group.
    pub fn id(&self) -> (r: &str)
        ensures
            r@ == self.group.id@,
    {
        self.group.id.as_str()
    }

    /// The group this cell aggregates for.
    pub fn get_group(&self) -> (r: Group)
        ensures
            r == self.group,
    {
        self.group.duplicate()
    }

    /// The cached aggregate area, or `None` when absent or poisoned.
    pub fn get_area(&self) -> (r: Option<UnitValue>)
        ensures
            !self.area.poisoned ==> r == self.area.value,
            self.area.poisoned ==> r is None,
    {
        match self.area.lock_read("area") {
            Ok(a) => *a,
            Err(_) => None,
        }
    }

    /// The cached aggregate length, or `None` when absent or poisoned.
    pub fn get_length(&self) -> (r: Option<UnitValue>)
        ensures
            !self.length.poisoned ==> r == self.length.value,
            self.length.poisoned ==> r is None,
    {
        match self.length.lock_read("length") {
            Ok(l) => *l,
            Err(_) => None,
        }
    }

    /// The cached total point count, or `None` when absent or poisoned.
    pub fn get_points(&self) -> (r: Option<u128>)
        ensures
            !self.points.poisoned ==> r == self.points.value,
            self.points.poisoned ==> r is None,
    {
        match self.points.lock_read("points") {
            Ok(p) => *p,
            Err(_) => None,
        }
    }

    /// The cached member count, or `None` when absent or poisoned.
    pub fn get_count(&self) -> (r: Option<u64>)
        ensures
            !self.count.poisoned ==> r == self.count.value,
            self.count.poisoned ==> r is None,
    {
        match self.count.lock_read("count") {
            Ok(c) => *c,
            Err(_) => None,
        }
    }

    /// Recompute all aggregates from the member cells, best-effort: a
    /// poisoned slot or an unrepresentable sum keeps its previous cached
    /// value; absent member values are skipped, never treated as zero.
    pub fn recompute_measurements(&mut self, members: &Vec<MeasurementCell>) -> (r:
        TakeoffResult<()>)
        requires
            old(self).wf(),
            forall|i: int| 0 <= i < members@.len() ==> (#[trigger] members@[i]).wf(),
        ensures
            *final(self) == group_recompute_model(*old(self), views_of(members@)),
            final(self).wf(),
            r is Ok <==> group_recompute_ok(*old(self), views_of(members@)),
    {
        let ghost ms = views_of(members@);
        let mut first_err: Option<TakeoffError> = None;

        let area = compute_area_sum(members);
        match area {
            Some(a) => {
                match self.area.lock_write(a, "area") {
                    Ok(_) => {
                    },
                    Err(e) => {
                        first_err = Some(e);
                    },
                }
            },
            None => {
                first_err = Some(overflow_error());
            },
        }

        let length = compute_length_sum(members);
        match length {
            Some(l) => {
                match self.length.lock_write(l, "length") {
                    Ok(_) => {
                    },
                    Err(e) => {
                        if first_err.is_none() {
                            first_err = Some(e);
                        }
                    },
                }
            },
            None => {
                if first_err.is_none() {
                    first_err = Some(overflow_error());
                }
            },
        }

        let points = compute_points_sum(members);
        match self.points.lock_write(points, "points") {
            Ok(_) => {
            },
            Err(e) => {
                if first_err.is_none() {
                    first_err = Some(e);
                }
            },
        }

        let count: Option<u64> = Some(members.len() as u64);
        match self.count.lock_write(count, "count") {
            Ok(_) => {
            },
            Err(e) => {
                if first_err.is_none() {
                    first_err = Some(e);
                }
            },
        }

        match first_err {
            None => Ok(()),
            Some(e) => Err(e),
        }
    }
}

fn overflow_error() -> (r: TakeoffError)
    ensures
        r matches TakeoffError::UnknownError { .. },
{
    TakeoffError::UnknownError {
        message: "value outside the exact representation bounds".to_owned(),
    }
}

/// The exact sum of the members' present areas in square meters; absent
/// when no member has one.
fn compute_area_sum(members: &Vec<MeasurementCell>) -> (r: Option<Option<UnitValue>>)
    requires
        forall|i: int| 0 <= i < members@.len() ==> (#[trigger] members@[i]).wf(),
    ensures
        r == area_fold(views_of(members@), members@.len() as int),
        r is Some && r->Some_0 is Some ==> r->Some_0->Some_0.value.wf(),
{
    let ghost ms = views_of(members@);
    let mut acc: Option<UnitValue> = None;
    let mut i: usize = 0;
    while i < members.len()
        invariant
            0 <= i <= members@.len(),
            ms == views_of(members@),
            forall|j: int| 0 <= j < members@.len() ==> (#[trigger] members@[j]).wf(),
            Some(acc) == area_fold(ms, i as int),
            acc is Some ==> acc->Some_0.value.wf(),
        decreases members@.len() - i,
    {
        proof {
            assert(ms[i as int] == members@[i as int]@);
        }
        let mv = members[i].get_area();
        match mv {
            None => {
            },
            Some(uv) => {
                let conv = uv.unit.convert_area(&uv.value, &Unit::Meters);
                let v = match conv {
                    Some(v) => v,
                    None => {
                        proof {
                            lemma_area_fold_none(ms, i as int + 1, ms.len() as int);
                        }
                        return None;
                    },
                };
                match acc {
                    None => {
                        acc = Some(UnitValue {
                            value: v,
                            unit: Unit::Meters,
                            magnitude: UnitMagnitude::Area,
                        });
                    },
                    Some(a) => {
                        let s = match a.value.add(&v) {
                            Some(s) => s,
                            None => {
                                proof {
                                    lemma_area_fold_none(ms, i as int + 1,
                                        ms.len() as int);
                                }
                                return None;
                            },
                        };
                        acc = Some(UnitValue {
                            value: s,
                            unit: Unit::Meters,
                            magnitude: UnitMagnitude::Area,
                        });
                    },
                }
            },
        }
        i = i + 1;
    }
    Some(acc)
}

/// The exact sum of the members' present lengths in meters; absent when
/// no member has one.
fn compute_length_sum(members: &Vec<MeasurementCell>) -> (r: Option<Option<UnitValue>>)
    requires
        forall|i: int| 0 <= i < members@.len() ==> (#[trigger] members@[i]).wf(),
    ensures
        r == length_fold(views_of(members@), members@.len() as int),
        r is Some && r->Some_0 is Some ==> r->Some_0->Some_0.value.wf(),
{
    let ghost ms = views_of(members@);
    let mut acc: Option<UnitValue> = None;
    let mut i: usize = 0;
    while i < members.len()
        invariant
            0 <= i <= members@.len(),
            ms == views_of(members@),
            forall|j: int| 0 <= j < members@.len() ==> (#[trigger] members@[j]).wf(),
            Some(acc) == length_fold(ms, i as int),
            acc is Some ==> acc->Some_0.value.wf(),
        decreases members@.len() - i,
    {
        proof {
            assert(ms[i as int] == members@[i as int]@);
        }
        let mv = members[i].get_length();
        match mv {
            None => {
            },
            Some(uv) => {
                let conv = uv.unit.convert(&uv.value, &Unit::Meters);
                let v = match conv {
                    Some(v) => v,
                    None => {
                        proof {
                            lemma_length_fold_none(ms, i as int + 1, ms.len() as int);
                        }
                        return None;
                    },
                };
                match acc {
                    None => {
                        acc = Some(UnitValue {
                            value: v,
                            unit: Unit::Meters,
                            magnitude: UnitMagnitude::Length,
                        });
                    },
                    Some(a) => {
                        let s = match a.value.add(&v) {
                            Some(s) => s,
                            None => {
                                proof {
                                    lemma_length_fold_none(ms, i as int + 1,
                                        ms.len() as int);
                                }
                                return None;
                            },
                        };
                        acc = Some(UnitValue {
                            value: s,
                            unit: Unit::Meters,
                            magnitude: UnitMagnitude::Length,
                        });
                    },
                }
            },
        }
        i = i + 1;
    }
    Some(acc)
}

/// The total point count of the members; absent for an empty list.
fn compute_points_sum(members: &Vec<MeasurementCell>) -> (r: Option<u128>)
    ensures
        r == points_agg(views_of(members@)),
{
    let ghost ms = views_of(members@);
    if members.len() == 0 {
        return None;
    }
    let mut total: u128 = 0;
    let mut i: usize = 0;
    proof {
        lemma_points_sum_bound(ms, ms.len() as int);
    }
    while i < members.len()
        invariant
            0 <= i <= members@.len(),
            ms == views_of(members@),
            total == points_sum(ms, i as int),
            total <= (i as int) * (u64::MAX as int),
        decreases members@.len() - i,
    {
        proof {
            assert(ms[i as int] == members@[i as int]@);
            lemma_points_sum_bound(ms, i as int + 1);
            assert((i as int + 1) * (u64::MAX as int) < u128::MAX) by (nonlinear_arith)
                requires
                    0 <= i < 0x1_0000_0000_0000_0000,
            ;
        }
        let p = members[i].get_points();
        total = total + (p as u128);
        i = i + 1;
    }
    Some(total)
}

proof fn lemma_area_fold_none(ms: Seq<MeasCellV>, i: int, n: int)
    requires
        0 < i <= n,
        area_fold(ms, i) is None,
    ensures
        area_fold(ms, n) is None,
    decreases n - i,
{
    if i < n {
        lemma_area_fold_none(ms, i + 1, n);
    }
}

proof fn lemma_length_fold_none(ms: Seq<MeasCellV>, i: int, n: int)
    requires
        0 < i <= n,
        length_fold(ms, i) is None,
    ensures
        length_fold(ms, n) is None,
    decreases n - i,
{
    if i < n {
        lemma_length_fold_none(ms, i + 1, n);
    }
}

} // verus!
