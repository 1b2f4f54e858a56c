//! The state registry: the directory of pages, groups, measurements and
//! scales, and the owner of every cross-entity mutation and cascade.
//!
//! Collections are kept in insertion order, so scale resolution is
//! deterministic: an upsert replaces in place, a fresh id appends. Each
//! mutation triggers the cascades of the contract table: upserting a
//! measurement re-resolves its scale and recomputes its group's
//! aggregate; removing a group removes its member measurements; changing
//! a page's scale set re-resolves every measurement on that page (group
//! aggregates are deliberately left to group-affecting operations).
//! Dangling page and group references are tolerated, never errors.

use vstd::prelude::*;
use vstd::pervasive::VecAdditionalExecFns;
use crate::cell::{
    MeasurementCell, MeasCellV, Slot, cell_wf, set_measurement_model,
    calculate_scale_model,
};
use crate::error::TakeoffResult;
use crate::group::{
    Group, GroupCell, group_recompute_model, group_recompute_ok, views_of,
};
use crate::measurement::{Measurement, MeasurementV, m_wf, m_point_count};
use crate::page::Page;
use crate::scale::Scale;

verus! {

/// Initial contents for a registry.
pub struct StateOptions {
    pub pages: Vec<Page>,
    pub groups: Vec<Group>,
    pub measurements: Vec<Measurement>,
    pub scales: Vec<Scale>,
}

/// The mathematical content of a registry.
#[verifier::ext_equal]
pub ghost struct StateV {
    pub pages: Seq<Page>,
    pub groups: Seq<GroupCell>,
    pub measurements: Seq<MeasCellV>,
    pub scales: Seq<Scale>,
}

/// The directory of pages, groups, measurements and scales.
#[derive(Debug)]
pub struct StateRegistry {
    pages: Vec<Page>,
    groups: Vec<GroupCell>,
    measurements: Vec<MeasurementCell>,
    scales: Vec<Scale>,
}

impl View for StateRegistry {
    type V = StateV;

    closed spec fn view(&self) -> StateV {
        StateV {
            pages: self.pages@,
            groups: self.groups@,
            measurements: views_of(self.measurements@),
            scales: self.scales@,
        }
    }
}

// ------------------------------------------------------------------
// Spec-level helpers over the model
// ------------------------------------------------------------------

pub open spec fn has_page(pages: Seq<Page>, id: Seq<char>) -> bool {
    exists|i: int| 0 <= i < pages.len() && (#[trigger] pages[i]).id@ == id
}

pub open spec fn page_index(pages: Seq<Page>, id: Seq<char>) -> int {
    choose|i: int| 0 <= i < pages.len() && (#[trigger] pages[i]).id@ == id
}

pub open spec fn has_group(groups: Seq<GroupCell>, id: Seq<char>) -> bool {
    exists|i: int| 0 <= i < groups.len() && (#[trigger] groups[i]).group.id@ == id
}

pub open spec fn group_index(groups: Seq<GroupCell>, id: Seq<char>) -> int {
    choose|i: int| 0 <= i < groups.len() && (#[trigger] groups[i]).group.id@ == id
}

pub open spec fn has_meas(ms: Seq<MeasCellV>, id: Seq<char>) -> bool {
    exists|i: int| 0 <= i < ms.len() && (#[trigger] ms[i]).m.id == id
}

pub open spec fn meas_index(ms: Seq<MeasCellV>, id: Seq<char>) -> int {
    choose|i: int| 0 <= i < ms.len() && (#[trigger] ms[i]).m.id == id
}

pub open spec fn has_scale(scales: Seq<Scale>, id: Seq<char>) -> bool {
    exists|i: int| 0 <= i < scales.len() && (#[trigger] scales[i]).spec_id() == id
}

pub open spec fn scale_index(scales: Seq<Scale>, id: Seq<char>) -> int {
    choose|i: int| 0 <= i < scales.len() && (#[trigger] scales[i]).spec_id() == id
}

/// The scales of a page among the first i scales, in registration order.
pub open spec fn scales_prefix(scales: Seq<Scale>, pid: Seq<char>, i: int) -> Seq<Scale>
    decreases i,
{
    if i <= 0 {
        Seq::empty()
    } else {
        let r = scales_prefix(scales, pid, i - 1);
        if scales[i - 1].spec_page_id() == pid {
            r.push(scales[i - 1])
        } else {
            r
        }
    }
}

/// The scales of a page, in registration order.
pub open spec fn scales_of_page(scales: Seq<Scale>, pid: Seq<char>) -> Seq<Scale> {
    scales_prefix(scales, pid, scales.len() as int)
}

/// The member cells of a group among the first i measurements.
pub open spec fn members_prefix(ms: Seq<MeasCellV>, gid: Seq<char>, i: int) -> Seq<
    MeasCellV,
>
    decreases i,
{
    if i <= 0 {
        Seq::empty()
    } else {
        let r = members_prefix(ms, gid, i - 1);
        if ms[i - 1].m.group_id == gid {
            r.push(ms[i - 1])
        } else {
            r
        }
    }
}

/// The member cells of a group, in insertion order.
pub open spec fn members_of(ms: Seq<MeasCellV>, gid: Seq<char>) -> Seq<MeasCellV> {
    members_prefix(ms, gid, ms.len() as int)
}

/// The cells on a page among the first i measurements.
pub open spec fn on_page_prefix(ms: Seq<MeasCellV>, pid: Seq<char>, i: int) -> Seq<
    MeasCellV,
>
    decreases i,
{
    if i <= 0 {
        Seq::empty()
    } else {
        let r = on_page_prefix(ms, pid, i - 1);
        if ms[i - 1].m.page_id == pid {
            r.push(ms[i - 1])
        } else {
            r
        }
    }
}

/// The cells on a page, in insertion order.
pub open spec fn on_page(ms: Seq<MeasCellV>, pid: Seq<char>) -> Seq<MeasCellV> {
    on_page_prefix(ms, pid, ms.len() as int)
}

/// The cells not belonging to a group, among the first i measurements.
pub open spec fn without_group_prefix(ms: Seq<MeasCellV>, gid: Seq<char>, i: int) -> Seq<
    MeasCellV,
>
    decreases i,
{
    if i <= 0 {
        Seq::empty()
    } else {
        let r = without_group_prefix(ms, gid, i - 1);
        if ms[i - 1].m.group_id == gid {
            r
        } else {
            r.push(ms[i - 1])
        }
    }
}

/// The cells not belonging to a group, in insertion order.
pub open spec fn without_group(ms: Seq<MeasCellV>, gid: Seq<char>) -> Seq<MeasCellV> {
    without_group_prefix(ms, gid, ms.len() as int)
}

/// The cells with no resolvable scale, among the first i measurements: an
/// unassigned or poisoned scale slot.
pub open spec fn missing_scale_prefix(ms: Seq<MeasCellV>, i: int) -> Seq<MeasCellV>
    decreases i,
{
    if i <= 0 {
        Seq::empty()
    } else {
        let r = missing_scale_prefix(ms, i - 1);
        if ms[i - 1].scale_poisoned || ms[i - 1].scale is None {
            r.push(ms[i - 1])
        } else {
            r
        }
    }
}

pub open spec fn missing_scale(ms: Seq<MeasCellV>) -> Seq<MeasCellV> {
    missing_scale_prefix(ms, ms.len() as int)
}

/// A fresh cell model for a measurement: no scale, absent caches.
pub open spec fn new_cell_model(m: MeasurementV) -> MeasCellV {
    MeasCellV {
        m,
        scale: None,
        scale_poisoned: false,
        area: None,
        area_poisoned: false,
        length: None,
        length_poisoned: false,
        points: m_point_count(m) as u64,
    }
}

/// The registry after `upsert_page`: replaced in place or appended.
pub open spec fn upsert_page_model(s: StateV, p: Page) -> StateV {
    let pages1 = if has_page(s.pages, p.id@) {
        s.pages.update(page_index(s.pages, p.id@), p)
    } else {
        s.pages.push(p)
    };
    StateV { pages: pages1, ..s }
}

/// The registry after seeding: every entry of the options upserted, in
/// the order pages, scales, groups, measurements.
pub open spec fn seed_pages(s: StateV, pages: Seq<Page>, i: int) -> StateV
    decreases i,
{
    if i <= 0 {
        s
    } else {
        upsert_page_model(seed_pages(s, pages, i - 1), pages[i - 1])
    }
}

pub open spec fn seed_scales(s: StateV, scales: Seq<Scale>, i: int) -> StateV
    decreases i,
{
    if i <= 0 {
        s
    } else {
        upsert_scale_model(seed_scales(s, scales, i - 1), scales[i - 1])
    }
}

pub open spec fn seed_groups(s: StateV, groups: Seq<Group>, i: int) -> StateV
    decreases i,
{
    if i <= 0 {
        s
    } else {
        upsert_group_model(seed_groups(s, groups, i - 1), groups[i - 1])
    }
}

pub open spec fn seed_measurements(s: StateV, ms: Seq<MeasurementV>, i: int) -> StateV
    decreases i,
{
    if i <= 0 {
        s
    } else {
        upsert_measurement_model(seed_measurements(s, ms, i - 1), ms[i - 1])
    }
}

/// The registry seeded from the given options.
pub open spec fn seed_model(o: StateOptions) -> StateV {
    let s0 = seed_pages(StateRegistry::empty_model(), o.pages@, o.pages@.len() as int);
    let s1 = seed_scales(s0, o.scales@, o.scales@.len() as int);
    let s2 = seed_groups(s1, o.groups@, o.groups@.len() as int);
    seed_measurements(
        s2,
        o.measurements@.map_values(|m: Measurement| m@),
        o.measurements@.len() as int,
    )
}

/// The groups after recomputing one group's aggregate from the given
/// measurements; unchanged when the group does not exist.
pub open spec fn compute_group_model(
    groups: Seq<GroupCell>,
    ms: Seq<MeasCellV>,
    gid: Seq<char>,
) -> Seq<GroupCell> {
    if !has_group(groups, gid) {
        groups
    } else {
        let j = group_index(groups, gid);
        groups.update(j, group_recompute_model(groups[j], members_of(ms, gid)))
    }
}

/// The measurements after re-resolving every cell on a page against the
/// page's scales.
pub open spec fn compute_page_model(
    ms: Seq<MeasCellV>,
    scales: Seq<Scale>,
    pid: Seq<char>,
) -> Seq<MeasCellV> {
    ms.map_values(
        |c: MeasCellV|
            if c.m.page_id == pid {
                calculate_scale_model(c, scales_of_page(scales, pid))
            } else {
                c
            },
    )
}

/// The registry after `upsert_measurement`: the cell is updated in place
/// or appended, its scale re-resolved and caches recomputed, then the
/// measurement's group aggregate recomputed.
pub open spec fn upsert_measurement_model(s: StateV, m: MeasurementV) -> StateV {
    let ps = scales_of_page(s.scales, m.page_id);
    let ms1 = if has_meas(s.measurements, m.id) {
        let i = meas_index(s.measurements, m.id);
        s.measurements.update(
            i,
            calculate_scale_model(set_measurement_model(s.measurements[i], m), ps),
        )
    } else {
        s.measurements.push(calculate_scale_model(new_cell_model(m), ps))
    };
    StateV {
        measurements: ms1,
        groups: compute_group_model(s.groups, ms1, m.group_id),
        ..s
    }
}

/// The registry after `remove_measurement`: the cell is removed and the
/// former group's aggregate recomputed.
pub open spec fn remove_measurement_model(s: StateV, id: Seq<char>) -> StateV {
    if !has_meas(s.measurements, id) {
        s
    } else {
        let i = meas_index(s.measurements, id);
        let gid = s.measurements[i].m.group_id;
        let ms1 = s.measurements.remove(i);
        StateV { measurements: ms1, groups: compute_group_model(s.groups, ms1, gid), ..s }
    }
}

/// The registry after `remove_group`: the group and every measurement
/// whose `group_id` matches are removed.
pub open spec fn remove_group_model(s: StateV, gid: Seq<char>) -> StateV {
    if !has_group(s.groups, gid) {
        s
    } else {
        StateV {
            groups: s.groups.remove(group_index(s.groups, gid)),
            measurements: without_group(s.measurements, gid),
            ..s
        }
    }
}

/// A fresh aggregate cell for a group.
pub open spec fn fresh_group_cell(g: Group) -> GroupCell {
    GroupCell {
        group: g,
        area: Slot { value: None, poisoned: false },
        length: Slot { value: None, poisoned: false },
        points: Slot { value: None, poisoned: false },
        count: Slot { value: None, poisoned: false },
    }
}

/// The registry after `upsert_group`: a fresh aggregate cell (healthy
/// slots) replaces any prior cell of that id, recomputed from the current
/// members.
pub open spec fn upsert_group_model(s: StateV, g: Group) -> StateV {
    let cell = group_recompute_model(fresh_group_cell(g), members_of(s.measurements,
        g.id@));
    let groups1 = if has_group(s.groups, g.id@) {
        s.groups.update(group_index(s.groups, g.id@), cell)
    } else {
        s.groups.push(cell)
    };
    StateV { groups: groups1, ..s }
}

/// The registry after `upsert_scale`: the scale is replaced in place or
/// appended, and every measurement on its page re-resolved. Group
/// aggregates are not touched here; they recompute on group-affecting
/// operations.
pub open spec fn upsert_scale_model(s: StateV, sc: Scale) -> StateV {
    let scales1 = if has_scale(s.scales, sc.spec_id()) {
        s.scales.update(scale_index(s.scales, sc.spec_id()), sc)
    } else {
        s.scales.push(sc)
    };
    StateV {
        scales: scales1,
        measurements: compute_page_model(s.measurements, scales1, sc.spec_page_id()),
        ..s
    }
}

/// The registry after `remove_scale`.
pub open spec fn remove_scale_model(s: StateV, id: Seq<char>) -> StateV {
    if !has_scale(s.scales, id) {
        s
    } else {
        let i = scale_index(s.scales, id);
        let pid = s.scales[i].spec_page_id();
        let scales1 = s.scales.remove(i);
        StateV {
            scales: scales1,
            measurements: compute_page_model(s.measurements, scales1, pid),
            ..s
        }
    }
}

// ------------------------------------------------------------------
// The registry
// ------------------------------------------------------------------

impl StateRegistry {
    /// The registry invariant: ids are unique within each collection and
    /// every stored value is well-formed.
    pub open spec fn inv(self) -> bool {
        let s = self@;
        &&& (forall|i: int, j: int|
            0 <= i < j < s.pages.len() ==> (#[trigger] s.pages[i]).id@ != (
            #[trigger] s.pages[j]).id@)
        &&& (forall|i: int, j: int|
            0 <= i < j < s.groups.len() ==> (#[trigger] s.groups[i]).group.id@ != (
            #[trigger] s.groups[j]).group.id@)
        &&& (forall|i: int, j: int|
            0 <= i < j < s.measurements.len() ==> (#[trigger] s.measurements[i]).m.id
                != (#[trigger] s.measurements[j]).m.id)
        &&& (forall|i: int, j: int|
            0 <= i < j < s.scales.len() ==> (#[trigger] s.scales[i]).spec_id() != (
            #[trigger] s.scales[j]).spec_id())
        &&& (forall|i: int|
            0 <= i < s.measurements.len() ==> cell_wf(#[trigger] s.measurements[i]))
        &&& (forall|i: int| 0 <= i < s.groups.len() ==> (#[trigger] s.groups[i]).wf())
        &&& (forall|i: int| 0 <= i < s.scales.len() ==> (#[trigger] s.scales[i]).wf())
    }

    /// An empty registry.
    pub fn empty() -> (r: StateRegistry)
        ensures
            r.inv(),
            r@.pages =~= Seq::<Page>::empty(),
            r@.groups =~= Seq::<GroupCell>::empty(),
            r@.measurements =~= Seq::<MeasCellV>::empty(),
            r@.scales =~= Seq::<Scale>::empty(),
    {
        let r = StateRegistry {
            pages: Vec::new(),
            groups: Vec::new(),
            measurements: Vec::new(),
            scales: Vec::new(),
        };
        proof {
            assert(r@.measurements =~= Seq::<MeasCellV>::empty());
        }
        r
    }

    /// A registry seeded with the given options: pages, scales, groups
    /// and measurements are upserted in that order, so every cascade of
    /// the mutation table has already run.
    pub fn new(options: Option<StateOptions>) -> (r: StateRegistry)
        requires
            ({
                match options {
                    None => true,
                    Some(o) => {
                        &&& (forall|i: int|
                            0 <= i < o.measurements@.len() ==> m_wf(
                                (#[trigger] o.measurements@[i])@,
                            ))
                        &&& (forall|i: int|
                            0 <= i < o.scales@.len() ==> (#[trigger] o.scales@[i]).wf())
                    },
                }
            }),
        ensures
            r.inv(),
            options is None ==> r@ == StateRegistry::empty_model(),
            options matches Some(o) ==> r@ == seed_model(o),
    {
        let mut r = StateRegistry::empty();
        let options = match options {
            Some(o) => o,
            None => {
                proof {
                    assert(r@ =~= StateRegistry::empty_model());
                }
                return r;
            },
        };
        proof {
            assert(r@ =~= StateRegistry::empty_model());
        }
        let mut i: usize = 0;
        while i < options.pages.len()
            invariant
                0 <= i <= options.pages@.len(),
                r.inv(),
                r@ == seed_pages(StateRegistry::empty_model(), options.pages@, i as int),
            decreases options.pages@.len() - i,
        {
            let _ = r.upsert_page(options.pages[i].duplicate());
            i = i + 1;
        }
        let ghost s0 = r@;
        let mut i: usize = 0;
        while i < options.scales.len()
            invariant
                0 <= i <= options.scales@.len(),
                r.inv(),
                forall|k: int|
                    0 <= k < options.scales@.len() ==> (#[trigger] options.scales@[k]).wf(),
                r@ == seed_scales(s0, options.scales@, i as int),
            decreases options.scales@.len() - i,
        {
            let _ = r.upsert_scale(options.scales[i].duplicate());
            i = i + 1;
        }
        let ghost s1 = r@;
        let mut i: usize = 0;
        while i < options.groups.len()
            invariant
                0 <= i <= options.groups@.len(),
                r.inv(),
                r@ == seed_groups(s1, options.groups@, i as int),
            decreases options.groups@.len() - i,
        {
            let _ = r.upsert_group(options.groups[i].duplicate());
            i = i + 1;
        }
        let ghost s2 = r@;
        let mut i: usize = 0;
        while i < options.measurements.len()
            invariant
                0 <= i <= options.measurements@.len(),
                r.inv(),
                forall|k: int|
                    0 <= k < options.measurements@.len() ==> m_wf(
                        (#[trigger] options.measurements@[k])@,
                    ),
                r@ == seed_measurements(
                    s2,
                    options.measurements@.map_values(|m: Measurement| m@),
                    i as int,
                ),
            decreases options.measurements@.len() - i,
        {
            let m = options.measurements[i].duplicate();
            let _ = r.upsert_measurement(m);
            proof {
                assert(options.measurements@.map_values(|m2: Measurement| m2@)[
                    i as int] == options.measurements@[i as int]@);
            }
            i = i + 1;
        }
        r
    }

    /// The model of an empty registry.
    pub open spec fn empty_model() -> StateV {
        StateV {
            pages: Seq::empty(),
            groups: Seq::empty(),
            measurements: Seq::empty(),
            scales: Seq::empty(),
        }
    }

    // --------------------------------------------------------------
    // Lookups
    // --------------------------------------------------------------

    fn find_page(&self, id: &String) -> (r: Option<usize>)
        ensures
            r is Some ==> 0 <= r->Some_0 < self@.pages.len() && self@.pages[
                r->Some_0 as int].id@ == id@,
            r is None ==> !has_page(self@.pages, id@),
    {
        let mut i: usize = 0;
        while i < self.pages.len()
            invariant
                0 <= i <= self@.pages.len(),
                forall|k: int| 0 <= k < i ==> (#[trigger] self@.pages[k]).id@ != id@,
            decreases self@.pages.len() - i,
        {
            if self.pages[i].id == *id {
                return Some(i);
            }
            i = i + 1;
        }
        None
    }

    fn find_group(&self, id: &String) -> (r: Option<usize>)
        ensures
            r is Some ==> 0 <= r->Some_0 < self@.groups.len() && self@.groups[
                r->Some_0 as int].group.id@ == id@,
            r is None ==> !has_group(self@.groups, id@),
    {
        let mut i: usize = 0;
        while i < self.groups.len()
            invariant
                0 <= i <= self@.groups.len(),
                forall|k: int|
                    0 <= k < i ==> (#[trigger] self@.groups[k]).group.id@ != id@,
            decreases self@.groups.len() - i,
        {
            if self.groups[i].group.id == *id {
                return Some(i);
            }
            i = i + 1;
        }
        None
    }

    fn find_measurement(&self, id: &String) -> (r: Option<usize>)
        ensures
            r is Some ==> 0 <= r->Some_0 < self@.measurements.len()
                && self@.measurements[r->Some_0 as int].m.id == id@,
            r is None ==> !has_meas(self@.measurements, id@),
    {
        let mut i: usize = 0;
        while i < self.measurements.len()
            invariant
                0 <= i <= self@.measurements.len(),
                forall|k: int|
                    0 <= k < i ==> (#[trigger] self@.measurements[k]).m.id != id@,
            decreases self@.measurements.len() - i,
        {
            proof {
                assert(self@.measurements[i as int] == self.measurements@[i as int]@);
            }
            if self.measurements[i].measurement.id_matches(id) {
                return Some(i);
            }
            i = i + 1;
        }
        None
    }

    fn find_scale(&self, id: &String) -> (r: Option<usize>)
        ensures
            r is Some ==> 0 <= r->Some_0 < self@.scales.len() && self@.scales[
                r->Some_0 as int].spec_id() == id@,
            r is None ==> !has_scale(self@.scales, id@),
    {
        let mut i: usize = 0;
        while i < self.scales.len()
            invariant
                0 <= i <= self@.scales.len(),
                forall|k: int|
                    0 <= k < i ==> (#[trigger] self@.scales[k]).spec_id() != id@,
            decreases self@.scales.len() - i,
        {
            if self.scales[i].id_matches(id) {
                return Some(i);
            }
            i = i + 1;
        }
        None
    }

    // --------------------------------------------------------------
    // Queries
    // --------------------------------------------------------------

    /// The measurement cells of a group, in insertion order.
    pub fn get_measurements_by_group_id(&self, group_id: String) -> (r: Vec<
        MeasurementCell,
    >)
        ensures
            views_of(r@) =~= members_of(self@.measurements, group_id@),
    {
        let mut out: Vec<MeasurementCell> = Vec::new();
        let mut i: usize = 0;
        while i < self.measurements.len()
            invariant
                0 <= i <= self@.measurements.len(),
                views_of(out@) =~= members_prefix(self@.measurements, group_id@,
                    i as int),
            decreases self@.measurements.len() - i,
        {
            proof {
                assert(self@.measurements[i as int] == self.measurements@[i as int]@);
            }
            if self.measurements[i].measurement.group_id_matches(&group_id) {
                out.push(self.measurements[i].duplicate());
            }
            proof {
                assert(views_of(out@) =~= members_prefix(self@.measurements, group_id@,
                    i as int + 1));
            }
            i = i + 1;
        }
        out
    }

    /// The measurement cells on a page, in insertion order.
    pub fn get_measurements_by_page_id(&self, page_id: String) -> (r: Vec<
        MeasurementCell,
    >)
        ensures
            views_of(r@) =~= on_page(self@.measurements, page_id@),
    {
        let mut out: Vec<MeasurementCell> = Vec::new();
        let mut i: usize = 0;
        while i < self.measurements.len()
            invariant
                0 <= i <= self@.measurements.len(),
                views_of(out@) =~= on_page_prefix(self@.measurements, page_id@, i as int),
            decreases self@.measurements.len() - i,
        {
            proof {
                assert(self@.measurements[i as int] == self.measurements@[i as int]@);
            }
            if self.measurements[i].measurement.page_id_matches(&page_id) {
                out.push(self.measurements[i].duplicate());
            }
            proof {
                assert(views_of(out@) =~= on_page_prefix(self@.measurements, page_id@,
                    i as int + 1));
            }
            i = i + 1;
        }
        out
    }

    /// The measurements with no resolved scale: an unassigned or poisoned
    /// scale slot.
    pub fn get_measurements_missing_scale(&self) -> (r: Vec<MeasurementCell>)
        ensures
            views_of(r@) =~= missing_scale(self@.measurements),
    {
        let mut out: Vec<MeasurementCell> = Vec::new();
        let mut i: usize = 0;
        while i < self.measurements.len()
            invariant
                0 <= i <= self@.measurements.len(),
                views_of(out@) =~= missing_scale_prefix(self@.measurements, i as int),
            decreases self@.measurements.len() - i,
        {
            proof {
                assert(self@.measurements[i as int] == self.measurements@[i as int]@);
            }
            let cell = &self.measurements[i];
            if cell.scale.poisoned || cell.scale.value.is_none() {
                out.push(cell.duplicate());
            }
            proof {
                assert(views_of(out@) =~= missing_scale_prefix(self@.measurements,
                    i as int + 1));
            }
            i = i + 1;
        }
        out
    }

    /// The scales of a page, in registration order.
    pub fn get_page_scales(&self, page_id: &String) -> (r: Vec<Scale>)
        ensures
            r@ =~= scales_of_page(self@.scales, page_id@),
    {
        let mut out: Vec<Scale> = Vec::new();
        let mut i: usize = 0;
        while i < self.scales.len()
            invariant
                0 <= i <= self@.scales.len(),
                out@ =~= scales_prefix(self@.scales, page_id@, i as int),
            decreases self@.scales.len() - i,
        {
            if self.scales[i].page_id_matches(page_id) {
                out.push(self.scales[i].duplicate());
            }
            proof {
                assert(out@ =~= scales_prefix(self@.scales, page_id@, i as int + 1));
            }
            i = i + 1;
        }
        out
    }

    /// The cell of a measurement, if present.
    pub fn get_measurement(&self, measurement_id: String) -> (r: Option<MeasurementCell>)
        requires
            self.inv(),
        ensures
            r is Some <==> has_meas(self@.measurements, measurement_id@),
            r is Some ==> r->Some_0@ == self@.measurements[meas_index(
                self@.measurements,
                measurement_id@,
            )],
            r is Some ==> r->Some_0@.m.id == measurement_id@,
    {
        match self.find_measurement(&measurement_id) {
            Some(i) => {
                proof {
                    lemma_meas_index_agrees(self@.measurements, measurement_id@,
                        i as int);
                    assert(self@.measurements[i as int] == self.measurements@[i as int]@);
                }
                Some(self.measurements[i].duplicate())
            },
            None => None,
        }
    }

    /// The resolved scale of a measurement: absent when the measurement
    /// is unknown, no scale resolved, or the slot is poisoned.
    pub fn get_measurement_scale(&self, measurement_id: String) -> (r: Option<Scale>)
        requires
            self.inv(),
        ensures
            !has_meas(self@.measurements, measurement_id@) ==> r is None,
            has_meas(self@.measurements, measurement_id@) ==> {
                let c = self@.measurements[meas_index(self@.measurements,
                    measurement_id@)];
                &&& (!c.scale_poisoned ==> r == c.scale)
                &&& (c.scale_poisoned ==> r is None)
            },
    {
        match self.find_measurement(&measurement_id) {
            Some(i) => {
                proof {
                    lemma_meas_index_agrees(self@.measurements, measurement_id@,
                        i as int);
                    assert(self@.measurements[i as int] == self.measurements@[i as int]@);
                }
                self.measurements[i].get_scale()
            },
            None => None,
        }
    }

    /// The aggregate cell of a group, if present.
    pub fn get_group(&self, group_id: String) -> (r: Option<GroupCell>)
        requires
            self.inv(),
        ensures
            r is Some <==> has_group(self@.groups, group_id@),
            r is Some ==> r->Some_0 == self@.groups[group_index(self@.groups, group_id@)],
    {
        match self.find_group(&group_id) {
            Some(i) => {
                proof {
                    lemma_group_index_agrees(self@.groups, group_id@, i as int);
                }
                Some(self.groups[i].duplicate())
            },
            None => None,
        }
    }

    // --------------------------------------------------------------
    // Mutations and cascades
    // --------------------------------------------------------------

    /// Insert or replace a page by id. No cascade.
    pub fn upsert_page(&mut self, page: Page) -> (r: Option<Page>)
        requires
            old(self).inv(),
        ensures
            final(self).inv(),
            final(self)@.groups == old(self)@.groups,
            final(self)@.measurements == old(self)@.measurements,
            final(self)@.scales == old(self)@.scales,
            has_page(old(self)@.pages, page.id@) ==> final(self)@.pages == old(
                self,
            )@.pages.update(page_index(old(self)@.pages, page.id@), page) && r == Some(
                old(self)@.pages[page_index(old(self)@.pages, page.id@)],
            ),
            !has_page(old(self)@.pages, page.id@) ==> final(self)@.pages == old(
                self,
            )@.pages.push(page) && r is None,
            final(self)@ == upsert_page_model(old(self)@, page),
    {
        match self.find_page(&page.id) {
            Some(i) => {
                proof {
                    lemma_page_index_agrees(self@.pages, page.id@, i as int);
                }
                let ghost old_id = self@.pages[i as int].id@;
                let prev = self.pages[i].duplicate();
                self.pages.set(i, page);
                proof {
                    assert(self@.scales == old(self)@.scales);
                    assert(self@.groups == old(self)@.groups);
                    assert(self@.measurements == old(self)@.measurements);
                    assert forall|a: int, b: int|
                        0 <= a < b < self@.pages.len() implies (
                        #[trigger] self@.pages[a]).id@ != (#[trigger] self@.pages[b]).id@ by {
                        assert(old(self)@.pages[a].id@ != old(self)@.pages[b].id@);
                    }
                    assert(self@ =~= upsert_page_model(old(self)@, page));
                }
                Some(prev)
            },
            None => {
                self.pages.push(page);
                proof {
                    assert(self@.scales == old(self)@.scales);
                    assert(self@.groups == old(self)@.groups);
                    assert(self@.measurements == old(self)@.measurements);
                    assert forall|a: int, b: int|
                        0 <= a < b < self@.pages.len() implies (
                        #[trigger] self@.pages[a]).id@ != (#[trigger] self@.pages[b]).id@ by {
                        if b == self@.pages.len() - 1 {
                            assert(self@.pages[a] == old(self)@.pages[a]);
                        } else {
                            assert(old(self)@.pages[a].id@ != old(self)@.pages[b].id@);
                        }
                    }
                    assert(self@ =~= upsert_page_model(old(self)@, page));
                }
                None
            },
        }
    }

    /// Remove a page by id. Measurements referencing it are kept: a
    /// dangling page id is tolerated.
    pub fn remove_page(&mut self, page_id: String) -> (r: Option<Page>)
        requires
            old(self).inv(),
        ensures
            final(self).inv(),
            final(self)@.groups == old(self)@.groups,
            final(self)@.measurements == old(self)@.measurements,
            final(self)@.scales == old(self)@.scales,
            !has_page(old(self)@.pages, page_id@) ==> final(self)@.pages == old(self)@.pages
                && r is None,
            has_page(old(self)@.pages, page_id@) ==> final(self)@.pages == old(
                self,
            )@.pages.remove(page_index(old(self)@.pages, page_id@)) && r == Some(
                old(self)@.pages[page_index(old(self)@.pages, page_id@)],
            ),
    {
        match self.find_page(&page_id) {
            Some(i) => {
                proof {
                    lemma_page_index_agrees(self@.pages, page_id@, i as int);
                    lemma_remove_keeps_distinct_pages(self@.pages, i as int);
                }
                let removed = self.pages.remove(i);
                proof {
                    assert(self@.scales == old(self)@.scales);
                    assert(self@.groups == old(self)@.groups);
                    assert(self@.measurements == old(self)@.measurements);
                }
                Some(removed)
            },
            None => None,
        }
    }

    /// Recompute one group's aggregate from its current members. A
    /// missing group is not an error (dangling group ids are tolerated).
    pub fn compute_group(&mut self, group_id: &String) -> (r: TakeoffResult<()>)
        requires
            old(self).inv(),
        ensures
            final(self).inv(),
            final(self)@.pages == old(self)@.pages,
            final(self)@.measurements == old(self)@.measurements,
            final(self)@.scales == old(self)@.scales,
            final(self)@.groups == compute_group_model(old(self)@.groups,
                old(self)@.measurements, group_id@),
            r is Ok <==> (!has_group(old(self)@.groups, group_id@) || group_recompute_ok(
                old(self)@.groups[group_index(old(self)@.groups, group_id@)],
                members_of(old(self)@.measurements, group_id@),
            )),
    {
        match self.find_group(group_id) {
            Some(j) => {
                proof {
                    lemma_group_index_agrees(self@.groups, group_id@, j as int);
                }
                let members = self.get_measurements_by_group_id(group_id.clone());
                proof {
                    lemma_members_wf(self@.measurements, group_id@,
                        self@.measurements.len() as int);
                    assert forall|k: int| 0 <= k < members@.len() implies (
                        #[trigger] members@[k]).wf() by {
                        assert(members@[k]@ == views_of(members@)[k]);
                        assert(views_of(members@)[k] == members_of(self@.measurements,
                            group_id@)[k]);
                    }
                }
                proof {
                    assert((self@.groups[j as int]).wf());
                }
                let mut cell = self.groups[j].duplicate();
                let res = cell.recompute_measurements(&members);
                self.groups.set(j, cell);
                proof {
                    assert(self@.pages == old(self)@.pages);
                    assert(self@.measurements == old(self)@.measurements);
                    assert(self@.scales == old(self)@.scales);
                    assert(self@.groups =~= compute_group_model(old(self)@.groups,
                        old(self)@.measurements, group_id@));
                    assert forall|a: int|
                        0 <= a < self@.groups.len() implies (
                        #[trigger] self@.groups[a]).wf() by {
                        if a != j {
                            assert(old(self)@.groups[a].wf());
                        }
                    }
                    assert forall|a: int, b: int|
                        0 <= a < b < self@.groups.len() implies (
                        #[trigger] self@.groups[a]).group.id@ != (
                        #[trigger] self@.groups[b]).group.id@ by {
                        assert(old(self)@.groups[a].group.id@ != old(
                            self,
                        )@.groups[b].group.id@);
                    }
                }
                res
            },
            None => Ok(()),
        }
    }

    /// Re-resolve every measurement on a page against the page's current
    /// scales, recomputing each cell's caches.
    fn compute_page(&mut self, page_id: &String)
        requires
            old(self).inv(),
        ensures
            final(self).inv(),
            final(self)@.pages == old(self)@.pages,
            final(self)@.groups == old(self)@.groups,
            final(self)@.scales == old(self)@.scales,
            final(self)@.measurements == compute_page_model(old(self)@.measurements,
                old(self)@.scales, page_id@),
    {
        let page_scales = self.get_page_scales(page_id);
        proof {
            lemma_scales_prefix_wf(self@.scales, page_id@, self@.scales.len() as int);
        }
        let n = self.measurements.len();
        let mut i: usize = 0;
        while i < n
            invariant
                0 <= i <= n,
                n == self@.measurements.len(),
                self.inv(),
                self@.pages == old(self)@.pages,
                self@.groups == old(self)@.groups,
                self@.scales == old(self)@.scales,
                page_scales@ =~= scales_of_page(old(self)@.scales, page_id@),
                forall|k: int|
                    0 <= k < page_scales@.len() ==> (#[trigger] page_scales@[k]).wf(),
                forall|k: int|
                    i <= k < n ==> self@.measurements[k] == old(self)@.measurements[k],
                forall|k: int|
                    0 <= k < i ==> self@.measurements[k] == (if old(
                        self,
                    )@.measurements[k].m.page_id == page_id@ {
                        calculate_scale_model(old(self)@.measurements[k],
                            scales_of_page(old(self)@.scales, page_id@))
                    } else {
                        old(self)@.measurements[k]
                    }),
            decreases n - i,
        {
            proof {
                assert(self@.measurements[i as int] == self.measurements@[i as int]@);
            }
            let ghost pre = self@.measurements;
            if self.measurements[i].measurement.page_id_matches(page_id) {
                let mut cell = self.measurements[i].duplicate();
                let _resolved = cell.calculate_scale(&page_scales);
                self.measurements.set(i, cell);
                proof {
                    assert(self@.measurements =~= pre.update(i as int, cell@));
                    lemma_calc_scale_keeps_m(pre[i as int], page_scales@);
                    assert forall|a: int, b: int|
                        0 <= a < b < self@.measurements.len() implies (
                        #[trigger] self@.measurements[a]).m.id != (
                        #[trigger] self@.measurements[b]).m.id by {
                        assert(pre[a].m.id != pre[b].m.id);
                    }
                }
            }
            i = i + 1;
        }
        proof {
            assert(self@.measurements =~= compute_page_model(old(self)@.measurements,
                old(self)@.scales, page_id@));
        }
    }

    /// Insert a measurement, or update the geometry of the cell with its
    /// id in place. Either way its scale is re-resolved, its caches
    /// recomputed, and its (new) group's aggregate recomputed. Returns
    /// the previous measurement for an update.
    pub fn upsert_measurement(&mut self, measurement: Measurement) -> (r: Option<
        Measurement,
    >)
        requires
            old(self).inv(),
            measurement.wf(),
        ensures
            final(self).inv(),
            final(self)@ == upsert_measurement_model(old(self)@, measurement@),
            r is Some <==> has_meas(old(self)@.measurements, measurement@.id),
            r is Some ==> r->Some_0@ == old(self)@.measurements[meas_index(
                old(self)@.measurements,
                measurement@.id,
            )].m,
    {
        let gid = measurement.group_id().to_owned();
        let pid = measurement.page_id().to_owned();
        let id = measurement.id().to_owned();
        let page_scales = self.get_page_scales(&pid);
        proof {
            lemma_scales_prefix_wf(self@.scales, pid@, self@.scales.len() as int);
            assert forall|k: int| 0 <= k < page_scales@.len() implies (
                #[trigger] page_scales@[k]).wf() by {
                assert(page_scales@[k] == scales_of_page(self@.scales, pid@)[k]);
            }
        }
        let r = match self.find_measurement(&id) {
            Some(i) => {
                proof {
                    lemma_meas_index_agrees(self@.measurements, id@, i as int);
                    assert(self@.measurements[i as int] == self.measurements@[i as int]@);
                    assert(cell_wf(self@.measurements[i as int]));
                }
                let mut cell = self.measurements[i].duplicate();
                let prev = cell.set_measurement(measurement);
                let _resolved = cell.calculate_scale(&page_scales);
                let ghost pre = self@.measurements;
                self.measurements.set(i, cell);
                proof {
                    assert(self@.measurements =~= pre.update(i as int, cell@));
                    assert(cell@.m.id == id@);
                    assert forall|a: int, b: int|
                        0 <= a < b < self@.measurements.len() implies (
                        #[trigger] self@.measurements[a]).m.id != (
                        #[trigger] self@.measurements[b]).m.id by {
                        assert(pre[a].m.id != pre[b].m.id);
                    }
                    assert forall|a: int|
                        0 <= a < self@.measurements.len() implies cell_wf(
                        #[trigger] self@.measurements[a]) by {
                        if a != i {
                            assert(cell_wf(pre[a]));
                        }
                    }
                }
                Some(prev)
            },
            None => {
                let mut cell = MeasurementCell::new(measurement);
                let _resolved = cell.calculate_scale(&page_scales);
                let ghost pre = self@.measurements;
                self.measurements.push(cell);
                proof {
                    assert(self@.measurements =~= pre.push(cell@));
                    assert(cell@.m.id == measurement@.id);
                    assert forall|a: int, b: int|
                        0 <= a < b < self@.measurements.len() implies (
                        #[trigger] self@.measurements[a]).m.id != (
                        #[trigger] self@.measurements[b]).m.id by {
                        if b < self@.measurements.len() - 1 {
                            assert(pre[a].m.id != pre[b].m.id);
                        } else {
                            assert(self@.measurements[a] == pre[a]);
                            assert(!has_meas(pre, measurement@.id));
                        }
                    }
                    assert forall|a: int|
                        0 <= a < self@.measurements.len() implies cell_wf(
                        #[trigger] self@.measurements[a]) by {
                        if a < self@.measurements.len() - 1 {
                            assert(cell_wf(pre[a]));
                        }
                    }
                }
                None
            },
        };
        let _best_effort = self.compute_group(&gid);
        proof {
            assert(self@ =~= upsert_measurement_model(old(self)@, measurement@));
        }
        r
    }

    /// Remove a measurement by id and recompute its former group's
    /// aggregate.
    pub fn remove_measurement(&mut self, measurement_id: String) -> (r: Option<
        Measurement,
    >)
        requires
            old(self).inv(),
        ensures
            final(self).inv(),
            final(self)@ == remove_measurement_model(old(self)@, measurement_id@),
            r is Some <==> has_meas(old(self)@.measurements, measurement_id@),
            r is Some ==> r->Some_0@ == old(self)@.measurements[meas_index(
                old(self)@.measurements,
                measurement_id@,
            )].m,
    {
        match self.find_measurement(&measurement_id) {
            Some(i) => {
                proof {
                    lemma_meas_index_agrees(self@.measurements, measurement_id@,
                        i as int);
                    lemma_remove_keeps_distinct_meas(self@.measurements, i as int);
                    assert(self@.measurements[i as int] == self.measurements@[i as int]@);
                }
                let cell = self.measurements.remove(i);
                proof {
                    lemma_views_remove(old(self).measurements@, i as int);
                    assert(self@.measurements =~= old(self)@.measurements.remove(
                        i as int,
                    ));
                    assert forall|a: int|
                        0 <= a < self@.measurements.len() implies cell_wf(
                        #[trigger] self@.measurements[a]) by {
                        if a < i {
                            assert(cell_wf(old(self)@.measurements[a]));
                        } else {
                            assert(cell_wf(old(self)@.measurements[a + 1]));
                        }
                    }
                }
                let gid = cell.measurement.group_id().to_owned();
                proof {
                    assert(self@.pages == old(self)@.pages);
                    assert(self@.groups == old(self)@.groups);
                    assert(self@.scales == old(self)@.scales);
                }
                let _best_effort = self.compute_group(&gid);
                proof {
                    assert(self@ =~= remove_measurement_model(old(self)@,
                        measurement_id@));
                }
                let MeasurementCell { measurement, .. } = cell;
                Some(measurement)
            },
            None => None,
        }
    }

    /// Insert or replace a group by id. The aggregate cell is fresh
    /// (healthy slots) and recomputed from the current members. Returns
    /// the group itself, as confirmation.
    pub fn upsert_group(&mut self, group: Group) -> (r: Option<Group>)
        requires
            old(self).inv(),
        ensures
            final(self).inv(),
            final(self)@ == upsert_group_model(old(self)@, group),
            r == Some(group),
    {
        let out = group.duplicate();
        let members = self.get_measurements_by_group_id(group.id.clone());
        proof {
            lemma_members_wf(self@.measurements, group.id@,
                self@.measurements.len() as int);
            assert forall|k: int| 0 <= k < members@.len() implies (
                #[trigger] members@[k]).wf() by {
                assert(members@[k]@ == views_of(members@)[k]);
                assert(views_of(members@)[k] == members_of(self@.measurements,
                    group.id@)[k]);
            }
        }
        let mut cell = GroupCell::new(group);
        let _best_effort = cell.recompute_measurements(&members);
        match self.find_group(&cell.group.id) {
            Some(j) => {
                proof {
                    lemma_group_index_agrees(self@.groups, cell.group.id@, j as int);
                }
                let ghost pre = self@.groups;
                self.groups.set(j, cell);
                proof {
                    assert(self@.groups =~= pre.update(j as int, cell));
                    assert forall|a: int, b: int|
                        0 <= a < b < self@.groups.len() implies (
                        #[trigger] self@.groups[a]).group.id@ != (
                        #[trigger] self@.groups[b]).group.id@ by {
                        assert(pre[a].group.id@ != pre[b].group.id@);
                    }
                    assert forall|a: int|
                        0 <= a < self@.groups.len() implies (
                        #[trigger] self@.groups[a]).wf() by {
                        if a != j {
                            assert(pre[a].wf());
                        }
                    }
                }
            },
            None => {
                let ghost pre = self@.groups;
                self.groups.push(cell);
                proof {
                    assert(self@.groups =~= pre.push(cell));
                    assert forall|a: int, b: int|
                        0 <= a < b < self@.groups.len() implies (
                        #[trigger] self@.groups[a]).group.id@ != (
                        #[trigger] self@.groups[b]).group.id@ by {
                        if b < self@.groups.len() - 1 {
                            assert(pre[a].group.id@ != pre[b].group.id@);
                        } else {
                            assert(self@.groups[a] == pre[a]);
                            assert(!has_group(pre, cell.group.id@));
                        }
                    }
                    assert forall|a: int|
                        0 <= a < self@.groups.len() implies (
                        #[trigger] self@.groups[a]).wf() by {
                        if a < self@.groups.len() - 1 {
                            assert(pre[a].wf());
                        }
                    }
                }
            },
        }
        proof {
            assert(self@ =~= upsert_group_model(old(self)@, out));
        }
        Some(out)
    }

    /// Remove a group by id, removing every measurement whose `group_id`
    /// matches. Querying those measurement ids afterwards finds nothing.
    pub fn remove_group(&mut self, group_id: String) -> (r: Option<Group>)
        requires
            old(self).inv(),
        ensures
            final(self).inv(),
            final(self)@ == remove_group_model(old(self)@, group_id@),
            r is Some <==> has_group(old(self)@.groups, group_id@),
            r is Some ==> r->Some_0 == old(self)@.groups[group_index(
                old(self)@.groups,
                group_id@,
            )].group,
            forall|id: Seq<char>|
                has_meas(final(self)@.measurements, id) ==> has_meas(old(self)@.measurements,
                    id),
            !has_group(final(self)@.groups, group_id@),
    {
        match self.find_group(&group_id) {
            Some(j) => {
                proof {
                    lemma_group_index_agrees(self@.groups, group_id@, j as int);
                    lemma_remove_keeps_distinct_groups(self@.groups, j as int);
                }
                let gcell = self.groups.remove(j);
                let mut kept: Vec<MeasurementCell> = Vec::new();
                let mut i: usize = 0;
                while i < self.measurements.len()
                    invariant
                        0 <= i <= self@.measurements.len(),
                        views_of(kept@) =~= without_group_prefix(self@.measurements,
                            group_id@, i as int),
                    decreases self@.measurements.len() - i,
                {
                    proof {
                        assert(self@.measurements[i as int] == self.measurements@[
                            i as int]@);
                    }
                    if !self.measurements[i].measurement.group_id_matches(&group_id) {
                        kept.push(self.measurements[i].duplicate());
                    }
                    proof {
                        assert(views_of(kept@) =~= without_group_prefix(
                            self@.measurements, group_id@, i as int + 1));
                    }
                    i = i + 1;
                }
                proof {
                    lemma_without_group_props(old(self)@.measurements, group_id@,
                        old(self)@.measurements.len() as int);
                }
                self.measurements = kept;
                proof {
                    lemma_without_group_membership(old(self)@.measurements, group_id@);
                    assert(self@ =~= remove_group_model(old(self)@, group_id@));
                }
                Some(gcell.group)
            },
            None => None,
        }
    }

    /// Insert or replace a scale by id, then re-resolve every measurement
    /// on the scale's page (an `Area` scale can change which scale any
    /// sibling resolves to). Returns the previous scale of that id.
    pub fn upsert_scale(&mut self, scale: Scale) -> (r: Option<Scale>)
        requires
            old(self).inv(),
            scale.wf(),
        ensures
            final(self).inv(),
            final(self)@ == upsert_scale_model(old(self)@, scale),
            r is Some <==> has_scale(old(self)@.scales, scale.spec_id()),
            r is Some ==> r->Some_0 == old(self)@.scales[scale_index(
                old(self)@.scales,
                scale.spec_id(),
            )],
    {
        let pid = scale.page_id();
        let id = scale.id();
        let r = match self.find_scale(&id) {
            Some(i) => {
                proof {
                    lemma_scale_index_agrees(self@.scales, id@, i as int);
                }
                let prev = self.scales[i].duplicate();
                self.scales.set(i, scale);
                Some(prev)
            },
            None => {
                self.scales.push(scale);
                None
            },
        };
        self.compute_page(&pid);
        proof {
            assert(self@ =~= upsert_scale_model(old(self)@, scale));
        }
        r
    }

    /// Remove a scale by id, then re-resolve every measurement on its
    /// page.
    pub fn remove_scale(&mut self, scale_id: String) -> (r: Option<Scale>)
        requires
            old(self).inv(),
        ensures
            final(self).inv(),
            final(self)@ == remove_scale_model(old(self)@, scale_id@),
            r is Some <==> has_scale(old(self)@.scales, scale_id@),
            r is Some ==> r->Some_0 == old(self)@.scales[scale_index(
                old(self)@.scales,
                scale_id@,
            )],
    {
        match self.find_scale(&scale_id) {
            Some(i) => {
                proof {
                    lemma_scale_index_agrees(self@.scales, scale_id@, i as int);
                    lemma_remove_keeps_distinct_scales(self@.scales, i as int);
                }
                let scale = self.scales.remove(i);
                let pid = scale.page_id();
                self.compute_page(&pid);
                proof {
                    assert(self@ =~= remove_scale_model(old(self)@, scale_id@));
                }
                Some(scale)
            },
            None => None,
        }
    }

    // --------------------------------------------------------------
    // Fault injection for the poisoning model
    // --------------------------------------------------------------

    /// Mark every aggregate slot of a group poisoned, as after a lock
    /// holder's abnormal termination during an aggregate update. Returns
    /// whether the group was found.
    pub fn poison_group_caches(&mut self, group_id: &String) -> (r: bool)
        requires
            old(self).inv(),
        ensures
            final(self).inv(),
            final(self)@.pages == old(self)@.pages,
            final(self)@.measurements == old(self)@.measurements,
            final(self)@.scales == old(self)@.scales,
            r == has_group(old(self)@.groups, group_id@),
            !r ==> final(self)@.groups == old(self)@.groups,
            r ==> {
                let j = group_index(old(self)@.groups, group_id@);
                let g = old(self)@.groups[j];
                final(self)@.groups == old(self)@.groups.update(
                    j,
                    GroupCell {
                        area: Slot { value: g.area.value, poisoned: true },
                        length: Slot { value: g.length.value, poisoned: true },
                        points: Slot { value: g.points.value, poisoned: true },
                        count: Slot { value: g.count.value, poisoned: true },
                        ..g
                    },
                )
            },
    {
        match self.find_group(group_id) {
            Some(j) => {
                proof {
                    lemma_group_index_agrees(self@.groups, group_id@, j as int);
                }
                proof {
                    assert((self@.groups[j as int]).wf());
                }
                let mut cell = self.groups[j].duplicate();
                cell.area.poison();
                cell.length.poison();
                cell.points.poison();
                cell.count.poison();
                let ghost pre = self@.groups;
                self.groups.set(j, cell);
                proof {
                    assert(self@.pages == old(self)@.pages);
                    assert(self@.measurements == old(self)@.measurements);
                    assert(self@.scales == old(self)@.scales);
                    assert(self@.groups =~= pre.update(j as int, cell));
                    let g = pre[j as int];
                    assert(cell == (GroupCell {
                        area: Slot { value: g.area.value, poisoned: true },
                        length: Slot { value: g.length.value, poisoned: true },
                        points: Slot { value: g.points.value, poisoned: true },
                        count: Slot { value: g.count.value, poisoned: true },
                        ..g
                    }));
                    assert forall|a: int, b: int|
                        0 <= a < b < self@.groups.len() implies (
                        #[trigger] self@.groups[a]).group.id@ != (
                        #[trigger] self@.groups[b]).group.id@ by {
                        assert(pre[a].group.id@ != pre[b].group.id@);
                    }
                    assert forall|a: int|
                        0 <= a < self@.groups.len() implies (
                        #[trigger] self@.groups[a]).wf() by {
                        if a != j {
                            assert(pre[a].wf());
                        }
                    }
                }
                true
            },
            None => false,
        }
    }

    /// Mark every derived-cache slot of a measurement poisoned. Returns
    /// whether the measurement was found.
    pub fn poison_measurement_caches(&mut self, measurement_id: &String) -> (r: bool)
        requires
            old(self).inv(),
        ensures
            final(self).inv(),
            final(self)@.pages == old(self)@.pages,
            final(self)@.groups == old(self)@.groups,
            final(self)@.scales == old(self)@.scales,
            r == has_meas(old(self)@.measurements, measurement_id@),
            !r ==> final(self)@.measurements == old(self)@.measurements,
            r ==> {
                let i = meas_index(old(self)@.measurements, measurement_id@);
                let c = old(self)@.measurements[i];
                final(self)@.measurements == old(self)@.measurements.update(
                    i,
                    MeasCellV {
                        scale_poisoned: true,
                        area_poisoned: true,
                        length_poisoned: true,
                        ..c
                    },
                )
            },
    {
        match self.find_measurement(measurement_id) {
            Some(i) => {
                proof {
                    lemma_meas_index_agrees(self@.measurements, measurement_id@,
                        i as int);
                    assert(self@.measurements[i as int] == self.measurements@[i as int]@);
                }
                let mut cell = self.measurements[i].duplicate();
                cell.scale.poison();
                cell.area.poison();
                cell.length.poison();
                let ghost pre = self@.measurements;
                self.measurements.set(i, cell);
                proof {
                    assert(self@.pages == old(self)@.pages);
                    assert(self@.groups == old(self)@.groups);
                    assert(self@.scales == old(self)@.scales);
                    assert forall|a: int, b: int|
                        0 <= a < b < self@.measurements.len() implies (
                        #[trigger] self@.measurements[a]).m.id != (
                        #[trigger] self@.measurements[b]).m.id by {
                        assert(pre[a].m.id != pre[b].m.id);
                    }
                    assert forall|a: int|
                        0 <= a < self@.measurements.len() implies cell_wf(
                        #[trigger] self@.measurements[a]) by {
                        if a != i {
                            assert(cell_wf(pre[a]));
                        }
                    }
                    assert(self@.measurements =~= old(self)@.measurements.update(
                        meas_index(old(self)@.measurements, measurement_id@),
                        MeasCellV {
                            scale_poisoned: true,
                            area_poisoned: true,
                            length_poisoned: true,
                            ..old(self)@.measurements[meas_index(old(self)@.measurements,
                                measurement_id@)]
                        },
                    ));
                }
                true
            },
            None => false,
        }
    }
}

// ------------------------------------------------------------------
// Small index lemmas
// ------------------------------------------------------------------

/// With distinct ids, a found index is the chosen index.
proof fn lemma_page_index_agrees(pages: Seq<Page>, id: Seq<char>, i: int)
    requires
        0 <= i < pages.len(),
        pages[i].id@ == id,
        forall|a: int, b: int|
            0 <= a < b < pages.len() ==> (#[trigger] pages[a]).id@ != (
            #[trigger] pages[b]).id@,
    ensures
        has_page(pages, id),
        page_index(pages, id) == i,
{
    assert(has_page(pages, id));
    let j = page_index(pages, id);
    if i < j {
        assert(pages[i].id@ != pages[j].id@);
    } else if j < i {
        assert(pages[j].id@ != pages[i].id@);
    }
}

proof fn lemma_group_index_agrees(groups: Seq<GroupCell>, id: Seq<char>, i: int)
    requires
        0 <= i < groups.len(),
        groups[i].group.id@ == id,
        forall|a: int, b: int|
            0 <= a < b < groups.len() ==> (#[trigger] groups[a]).group.id@ != (
            #[trigger] groups[b]).group.id@,
    ensures
        has_group(groups, id),
        group_index(groups, id) == i,
{
    assert(has_group(groups, id));
    let j = group_index(groups, id);
    if i < j {
        assert(groups[i].group.id@ != groups[j].group.id@);
    } else if j < i {
        assert(groups[j].group.id@ != groups[i].group.id@);
    }
}

proof fn lemma_meas_index_agrees(ms: Seq<MeasCellV>, id: Seq<char>, i: int)
    requires
        0 <= i < ms.len(),
        ms[i].m.id == id,
        forall|a: int, b: int|
            0 <= a < b < ms.len() ==> (#[trigger] ms[a]).m.id != (#[trigger] ms[b]).m.id,
    ensures
        has_meas(ms, id),
        meas_index(ms, id) == i,
{
    assert(has_meas(ms, id));
    let j = meas_index(ms, id);
    if i < j {
        assert(ms[i].m.id != ms[j].m.id);
    } else if j < i {
        assert(ms[j].m.id != ms[i].m.id);
    }
}

proof fn lemma_scale_index_agrees(scales: Seq<Scale>, id: Seq<char>, i: int)
    requires
        0 <= i < scales.len(),
        scales[i].spec_id() == id,
        forall|a: int, b: int|
            0 <= a < b < scales.len() ==> (#[trigger] scales[a]).spec_id() != (
            #[trigger] scales[b]).spec_id(),
    ensures
        has_scale(scales, id),
        scale_index(scales, id) == i,
{
    assert(has_scale(scales, id));
    let j = scale_index(scales, id);
    if i < j {
        assert(scales[i].spec_id() != scales[j].spec_id());
    } else if j < i {
        assert(scales[j].spec_id() != scales[i].spec_id());
    }
}

proof fn lemma_remove_keeps_distinct_pages(pages: Seq<Page>, i: int)
    requires
        0 <= i < pages.len(),
        forall|a: int, b: int|
            0 <= a < b < pages.len() ==> (#[trigger] pages[a]).id@ != (
            #[trigger] pages[b]).id@,
    ensures
        forall|a: int, b: int|
            0 <= a < b < pages.remove(i).len() ==> (#[trigger] pages.remove(i)[a]).id@
                != (#[trigger] pages.remove(i)[b]).id@,
{
}

proof fn lemma_remove_keeps_distinct_groups(groups: Seq<GroupCell>, i: int)
    requires
        0 <= i < groups.len(),
        forall|a: int, b: int|
            0 <= a < b < groups.len() ==> (#[trigger] groups[a]).group.id@ != (
            #[trigger] groups[b]).group.id@,
    ensures
        forall|a: int, b: int|
            0 <= a < b < groups.remove(i).len() ==> (#[trigger] groups.remove(
                i,
            )[a]).group.id@ != (#[trigger] groups.remove(i)[b]).group.id@,
{
}

proof fn lemma_remove_keeps_distinct_meas(ms: Seq<MeasCellV>, i: int)
    requires
        0 <= i < ms.len(),
        forall|a: int, b: int|
            0 <= a < b < ms.len() ==> (#[trigger] ms[a]).m.id != (#[trigger] ms[b]).m.id,
    ensures
        forall|a: int, b: int|
            0 <= a < b < ms.remove(i).len() ==> (#[trigger] ms.remove(i)[a]).m.id != (
            #[trigger] ms.remove(i)[b]).m.id,
{
}

proof fn lemma_remove_keeps_distinct_scales(scales: Seq<Scale>, i: int)
    requires
        0 <= i < scales.len(),
        forall|a: int, b: int|
            0 <= a < b < scales.len() ==> (#[trigger] scales[a]).spec_id() != (
            #[trigger] scales[b]).spec_id(),
    ensures
        forall|a: int, b: int|
            0 <= a < b < scales.remove(i).len() ==> (#[trigger] scales.remove(
                i,
            )[a]).spec_id() != (#[trigger] scales.remove(i)[b]).spec_id(),
{
}

/// Dropping a group's members keeps cells well-formed and ids distinct.
proof fn lemma_without_group_props(ms: Seq<MeasCellV>, gid: Seq<char>, i: int)
    requires
        0 <= i <= ms.len(),
        forall|a: int, b: int|
            0 <= a < b < ms.len() ==> (#[trigger] ms[a]).m.id != (#[trigger] ms[b]).m.id,
        forall|a: int| 0 <= a < ms.len() ==> cell_wf(#[trigger] ms[a]),
    ensures
        ({
            let w = without_group_prefix(ms, gid, i);
            &&& (forall|a: int| 0 <= a < w.len() ==> cell_wf(#[trigger] w[a]))
            &&& (forall|a: int|
                0 <= a < w.len() ==> exists|b: int|
                    0 <= b < i && #[trigger] w[a] == ms[b])
            &&& (forall|a: int, b: int|
                0 <= a < b < w.len() ==> (#[trigger] w[a]).m.id != (
                #[trigger] w[b]).m.id)
        }),
    decreases i,
{
    if i <= 0 {
    } else {
        lemma_without_group_props(ms, gid, i - 1);
        let w0 = without_group_prefix(ms, gid, i - 1);
        let w = without_group_prefix(ms, gid, i);
        if ms[i - 1].m.group_id == gid {
        } else {
            assert forall|a: int| 0 <= a < w.len() implies exists|b: int|
                0 <= b < i && #[trigger] w[a] == ms[b] by {
                if a < w0.len() {
                    let bb = choose|b: int| 0 <= b < i - 1 && w0[a] == ms[b];
                    assert(w[a] == ms[bb]);
                } else {
                    assert(w[a] == ms[i - 1]);
                }
            }
            assert forall|a: int, b: int| 0 <= a < b < w.len() implies (
                #[trigger] w[a]).m.id != (#[trigger] w[b]).m.id by {
                if b < w0.len() {
                } else {
                    assert(w[b] == ms[i - 1]);
                    let c = choose|c: int| 0 <= c < i - 1 && w[a] == ms[c];
                    assert(w[a] == ms[c]);
                    assert(ms[c].m.id != ms[i - 1].m.id);
                }
            }
        }
    }
}


/// Member cells of a group are cells of the underlying sequence.
proof fn lemma_members_wf(ms: Seq<MeasCellV>, gid: Seq<char>, i: int)
    requires
        0 <= i <= ms.len(),
        forall|a: int| 0 <= a < ms.len() ==> cell_wf(#[trigger] ms[a]),
    ensures
        forall|a: int|
            0 <= a < members_prefix(ms, gid, i).len() ==> cell_wf(
                #[trigger] members_prefix(ms, gid, i)[a],
            ),
    decreases i,
{
    if i <= 0 {
    } else {
        lemma_members_wf(ms, gid, i - 1);
        let w0 = members_prefix(ms, gid, i - 1);
        let w = members_prefix(ms, gid, i);
        assert forall|a: int| 0 <= a < w.len() implies cell_wf(#[trigger] w[a]) by {
            if a < w0.len() {
                assert(w[a] == w0[a]);
            } else {
                assert(w[a] == ms[i - 1]);
            }
        }
    }
}

/// Scales of a page are scales of the underlying sequence.
proof fn lemma_scales_prefix_wf(scales: Seq<Scale>, pid: Seq<char>, i: int)
    requires
        0 <= i <= scales.len(),
        forall|a: int| 0 <= a < scales.len() ==> (#[trigger] scales[a]).wf(),
    ensures
        forall|a: int|
            0 <= a < scales_prefix(scales, pid, i).len() ==> (
            #[trigger] scales_prefix(scales, pid, i)[a]).wf(),
    decreases i,
{
    if i <= 0 {
    } else {
        lemma_scales_prefix_wf(scales, pid, i - 1);
        let w0 = scales_prefix(scales, pid, i - 1);
        let w = scales_prefix(scales, pid, i);
        assert forall|a: int| 0 <= a < w.len() implies (#[trigger] w[a]).wf() by {
            if a < w0.len() {
                assert(w[a] == w0[a]);
            } else {
                assert(w[a] == scales[i - 1]);
            }
        }
    }
}

/// Views distribute over removal.
proof fn lemma_views_remove(ms: Seq<MeasurementCell>, i: int)
    requires
        0 <= i < ms.len(),
    ensures
        views_of(ms.remove(i)) =~= views_of(ms).remove(i),
{
}

/// Resolution and recompute keep the measurement and point count.
proof fn lemma_calc_scale_keeps_m(c: MeasCellV, scales: Seq<Scale>)
    ensures
        calculate_scale_model(c, scales).m == c.m,
        calculate_scale_model(c, scales).points == c.points,
{
}

/// Every id present after dropping a group's members was present before.
proof fn lemma_without_group_membership(ms: Seq<MeasCellV>, gid: Seq<char>)
    ensures
        forall|id: Seq<char>|
            has_meas(without_group(ms, gid), id) ==> has_meas(ms, id),
{
    lemma_without_group_prefix_membership(ms, gid, ms.len() as int);
}

proof fn lemma_without_group_prefix_membership(ms: Seq<MeasCellV>, gid: Seq<char>, i: int)
    requires
        i <= ms.len(),
    ensures
        forall|id: Seq<char>|
            has_meas(without_group_prefix(ms, gid, i), id) ==> has_meas(ms, id),
    decreases i,
{
    if i <= 0 {
    } else {
        lemma_without_group_prefix_membership(ms, gid, i - 1);
        assert forall|id: Seq<char>|
            has_meas(without_group_prefix(ms, gid, i), id) implies has_meas(ms, id) by {
            let w = without_group_prefix(ms, gid, i);
            let k = choose|k: int| 0 <= k < w.len() && w[k].m.id == id;
            if ms[i - 1].m.group_id == gid {
            } else {
                if k < w.len() - 1 {
                    assert(has_meas(without_group_prefix(ms, gid, i - 1), id));
                } else {
                    assert(w[k] == ms[i - 1]);
                    assert(0 <= i - 1 < ms.len() && ms[i - 1].m.id == id);
                }
            }
        }
    }
}

} // verus!
