//! Engine-wide laws, proved from the contracts of the other modules.

use vstd::prelude::*;
use crate::cell::MeasCellV;
use crate::group::{GroupCell, group_recompute_model};
use crate::measurement::MeasurementV;
use crate::rat::{GRat, g_wf, g_eqv};
use crate::state::{
    StateV, has_meas, has_group, meas_index, group_index, members_of, members_prefix,
    compute_group_model, upsert_measurement_model, remove_measurement_model,
    new_cell_model, scales_of_page,
};
use crate::unit::{Unit, unit_factor, convert_len_spec, convert_area_spec};

verus! {

/// Converting a length to a unit and back restores the value exactly, for
/// every pair of units: the conversion factors are exact rationals.
pub proof fn lemma_convert_length_round_trip(v: GRat, a: Unit, b: Unit)
    requires
        g_wf(v),
    ensures
        g_eqv(convert_len_spec(convert_len_spec(v, a, b), b, a), v),
{
    let fa = unit_factor(a);
    let fb = unit_factor(b);
    let w = convert_len_spec(convert_len_spec(v, a, b), b, a);
    assert(w.num * v.den == v.num * w.den) by (nonlinear_arith)
        requires
            w.num == (v.num * fa) * fb,
            w.den == (v.den * fb) * fa,
            v.den > 0,
    ;
}

/// Converting an area to a unit and back restores the value exactly.
pub proof fn lemma_convert_area_round_trip(v: GRat, a: Unit, b: Unit)
    requires
        g_wf(v),
    ensures
        g_eqv(convert_area_spec(convert_area_spec(v, a, b), b, a), v),
{
    let fa = unit_factor(a) * unit_factor(a);
    let fb = unit_factor(b) * unit_factor(b);
    let w = convert_area_spec(convert_area_spec(v, a, b), b, a);
    assert(w.num * v.den == v.num * w.den) by (nonlinear_arith)
        requires
            w.num == (v.num * fa) * fb,
            w.den == (v.den * fb) * fa,
            v.den > 0,
    ;
}

/// Two sequences that agree on their first i elements have the same
/// member prefix.
proof fn lemma_members_prefix_agrees(
    ms1: Seq<MeasCellV>,
    ms2: Seq<MeasCellV>,
    gid: Seq<char>,
    i: int,
)
    requires
        i <= ms1.len(),
        i <= ms2.len(),
        forall|k: int| 0 <= k < i ==> ms1[k] == ms2[k],
    ensures
        members_prefix(ms1, gid, i) == members_prefix(ms2, gid, i),
    decreases i,
{
    if i > 0 {
        lemma_members_prefix_agrees(ms1, ms2, gid, i - 1);
    }
}

/// Appending a cell extends the member list exactly when the cell belongs
/// to the group.
proof fn lemma_members_of_push(ms: Seq<MeasCellV>, c: MeasCellV, gid: Seq<char>)
    ensures
        c.m.group_id == gid ==> members_of(ms.push(c), gid) == members_of(ms,
            gid).push(c),
        c.m.group_id != gid ==> members_of(ms.push(c), gid) == members_of(ms, gid),
{
    let ms1 = ms.push(c);
    lemma_members_prefix_agrees(ms1, ms, gid, ms.len() as int);
    assert(ms1[ms1.len() - 1] == c);
}

/// Recomputing a group's aggregate is determined by the member list: a
/// second recompute from members whose sums are representable overwrites
/// the first entirely.
proof fn lemma_group_recompute_last_wins(
    g: GroupCell,
    ms1: Seq<MeasCellV>,
    ms0: Seq<MeasCellV>,
)
    requires
        crate::group::area_fold(ms0, ms0.len() as int) is Some,
        crate::group::length_fold(ms0, ms0.len() as int) is Some,
        ms0.len() <= u64::MAX,
    ensures
        group_recompute_model(group_recompute_model(g, ms1), ms0)
            == group_recompute_model(g, ms0),
{
}

/// Group aggregate invariant, second half: upserting a fresh measurement
/// and then removing it leaves the measurement directory unchanged and
/// the group's aggregate exactly recomputed from the original members —
/// so a registry whose aggregate was fresh gets it back unchanged.
pub proof fn lemma_add_then_remove_restores(s: StateV, m: MeasurementV)
    requires
        !has_meas(s.measurements, m.id),
        crate::group::area_fold(
            members_of(s.measurements, m.group_id),
            members_of(s.measurements, m.group_id).len() as int,
        ) is Some,
        crate::group::length_fold(
            members_of(s.measurements, m.group_id),
            members_of(s.measurements, m.group_id).len() as int,
        ) is Some,
        members_of(s.measurements, m.group_id).len() <= u64::MAX,
        forall|a: int, b: int|
            0 <= a < b < s.measurements.len() ==> (#[trigger] s.measurements[a]).m.id
                != (#[trigger] s.measurements[b]).m.id,
        forall|a: int, b: int|
            0 <= a < b < s.groups.len() ==> (#[trigger] s.groups[a]).group.id@ != (
            #[trigger] s.groups[b]).group.id@,
    ensures
        ({
            let s2 = remove_measurement_model(upsert_measurement_model(s, m), m.id);
            &&& s2.measurements == s.measurements
            &&& s2.groups == compute_group_model(s.groups, s.measurements, m.group_id)
            &&& s2.pages == s.pages
            &&& s2.scales == s.scales
        }),
{
    let s1 = upsert_measurement_model(s, m);
    let ps = scales_of_page(s.scales, m.page_id);
    let cell = crate::cell::calculate_scale_model(new_cell_model(m), ps);
    crate::cell::lemma_calculate_scale_keeps_m(new_cell_model(m), ps);
    assert(cell.m == m);
    let ms1 = s.measurements.push(cell);
    assert(s1.measurements == ms1);
    // The fresh id sits at the end, and nowhere else.
    assert(ms1[ms1.len() - 1] == cell);
    assert(has_meas(ms1, m.id));
    let i = meas_index(ms1, m.id);
    assert(0 <= i < ms1.len() && ms1[i].m.id == m.id);
    if i < ms1.len() - 1 {
        assert(ms1[i] == s.measurements[i]);
        assert(has_meas(s.measurements, m.id));
    }
    assert(i == ms1.len() - 1);
    assert(ms1.remove(i) =~= s.measurements);
    let s2 = remove_measurement_model(s1, m.id);
    assert(s2.measurements == s.measurements);
    // The group aggregate after removal is recomputed from the original
    // members, whatever the intermediate aggregate held.
    let gid = m.group_id;
    if !has_group(s.groups, gid) {
        assert(s1.groups == s.groups);
        assert(s2.groups == s.groups);
    } else {
        let j = group_index(s.groups, gid);
        assert(0 <= j < s.groups.len() && s.groups[j].group.id@ == gid);
        let members1 = members_of(ms1, gid);
        let g1 = group_recompute_model(s.groups[j], members1);
        assert(g1.group == s.groups[j].group);
        assert(s1.groups == s.groups.update(j, g1));
        assert(s1.groups[j].group.id@ == gid);
        assert(has_group(s1.groups, gid));
        // Indices are stable: ids are unchanged by the update.
        let j1 = group_index(s1.groups, gid);
        assert(0 <= j1 < s1.groups.len() && s1.groups[j1].group.id@ == gid);
        if j1 != j {
            if j1 < j {
                assert(s.groups[j1].group.id@ != s.groups[j].group.id@);
                assert(s1.groups[j1] == s.groups[j1]);
            } else {
                assert(s.groups[j].group.id@ != s.groups[j1].group.id@);
                assert(s1.groups[j1] == s.groups[j1]);
            }
        }
        assert(j1 == j);
        let members0 = members_of(s.measurements, gid);
        lemma_group_recompute_last_wins(s.groups[j], members1, members0);
        assert(s2.groups =~= compute_group_model(s.groups, s.measurements, gid));
    }
}

/// The registry after a sequence of measurement upserts, first to last.
pub open spec fn upsert_all(s: StateV, ms: Seq<MeasurementV>, i: int) -> StateV
    decreases i,
{
    if i <= 0 {
        s
    } else {
        upsert_measurement_model(upsert_all(s, ms, i - 1), ms[i - 1])
    }
}

/// Convergence of independent upserts: inserting N measurements with
/// pairwise distinct, fresh ids into one group leaves the group's member
/// count at exactly N, whatever order the upserts arrive in (every
/// interleaving of independent upserts is some such sequence).
pub proof fn lemma_upserts_converge_to_count(s: StateV, ms: Seq<MeasurementV>, gid: Seq<
    char,
>)
    requires
        forall|k: int| 0 <= k < ms.len() ==> (#[trigger] ms[k]).group_id == gid,
        forall|a: int, b: int|
            0 <= a < b < ms.len() ==> (#[trigger] ms[a]).id != (#[trigger] ms[b]).id,
        forall|k: int| 0 <= k < ms.len() ==> !has_meas(s.measurements, (#[trigger] ms[k]).id),
        forall|a: int, b: int|
            0 <= a < b < s.groups.len() ==> (#[trigger] s.groups[a]).group.id@ != (
            #[trigger] s.groups[b]).group.id@,
        has_group(s.groups, gid),
        !s.groups[group_index(s.groups, gid)].count.poisoned,
        members_of(s.measurements, gid).len() == 0,
        0 < ms.len() <= u64::MAX,
    ensures
        ({
            let sf = upsert_all(s, ms, ms.len() as int);
            let j = group_index(sf.groups, gid);
            &&& has_group(sf.groups, gid)
            &&& sf.groups[j].count.value == Some(ms.len() as u64)
        }),
{
    lemma_upserts_converge_aux(s, ms, gid, ms.len() as int);
}

/// After the first i upserts: the group cell (still at a stable index)
/// holds a member count of exactly i, its count slot healthy, and the ids
/// of the remaining measurements are still fresh.
proof fn lemma_upserts_converge_aux(s: StateV, ms: Seq<MeasurementV>, gid: Seq<char>, i: int)
    requires
        0 <= i <= ms.len(),
        forall|k: int| 0 <= k < ms.len() ==> (#[trigger] ms[k]).group_id == gid,
        forall|a: int, b: int|
            0 <= a < b < ms.len() ==> (#[trigger] ms[a]).id != (#[trigger] ms[b]).id,
        forall|k: int| 0 <= k < ms.len() ==> !has_meas(s.measurements, (#[trigger] ms[k]).id),
        forall|a: int, b: int|
            0 <= a < b < s.groups.len() ==> (#[trigger] s.groups[a]).group.id@ != (
            #[trigger] s.groups[b]).group.id@,
        has_group(s.groups, gid),
        !s.groups[group_index(s.groups, gid)].count.poisoned,
        members_of(s.measurements, gid).len() == 0,
        ms.len() <= u64::MAX,
    ensures
        ({
            let si = upsert_all(s, ms, i);
            &&& si.groups.len() == s.groups.len()
            &&& (forall|a: int|
                0 <= a < si.groups.len() ==> (#[trigger] si.groups[a]).group
                    == s.groups[a].group)
            &&& group_index(si.groups, gid) == group_index(s.groups, gid)
            &&& has_group(si.groups, gid)
            &&& !si.groups[group_index(s.groups, gid)].count.poisoned
            &&& members_of(si.measurements, gid).len() == i
            &&& (forall|k: int|
                i <= k < ms.len() ==> !has_meas(si.measurements, (#[trigger] ms[k]).id))
            &&& (i > 0 ==> si.groups[group_index(s.groups, gid)].count.value == Some(
                i as u64,
            ))
            &&& (i == 0 ==> si.groups == s.groups)
        }),
    decreases i,
{
    let j = group_index(s.groups, gid);
    assert(0 <= j < s.groups.len() && s.groups[j].group.id@ == gid);
    if i <= 0 {
    } else {
        lemma_upserts_converge_aux(s, ms, gid, i - 1);
        let sp = upsert_all(s, ms, i - 1);
        let m = ms[i - 1];
        let si = upsert_all(s, ms, i);
        assert(si == upsert_measurement_model(sp, m));
        assert(!has_meas(sp.measurements, m.id));
        let ps = scales_of_page(sp.scales, m.page_id);
        let cell = crate::cell::calculate_scale_model(new_cell_model(m), ps);
        crate::cell::lemma_calculate_scale_keeps_m(new_cell_model(m), ps);
        assert(cell.m == m);
        let ms1 = sp.measurements.push(cell);
        assert(si.measurements == ms1);
        lemma_members_of_push(sp.measurements, cell, gid);
        assert(members_of(ms1, gid).len() == i);
        // Group index is stable under the aggregate update.
        assert(sp.groups[j].group.id@ == gid);
        lemma_group_index_stable(sp.groups, s.groups, gid, j);
        assert(has_group(sp.groups, gid) && group_index(sp.groups, gid) == j);
        let g1 = group_recompute_model(sp.groups[j], members_of(ms1, gid));
        assert(si.groups == sp.groups.update(j, g1));
        assert(g1.group == sp.groups[j].group);
        assert(!sp.groups[j].count.poisoned);
        assert(members_of(ms1, gid).len() <= u64::MAX);
        assert(g1.count.value == Some(i as u64) && !g1.count.poisoned);
        assert(si.groups[j].count.value == Some(i as u64));
        lemma_group_index_stable(si.groups, s.groups, gid, j);
        // Remaining ids are still fresh after the append.
        assert forall|k: int|
            i <= k < ms.len() implies !has_meas(si.measurements, (#[trigger] ms[k]).id) by {
            if has_meas(ms1, ms[k].id) {
                let w = meas_index(ms1, ms[k].id);
                assert(0 <= w < ms1.len() && ms1[w].m.id == ms[k].id);
                if w < ms1.len() - 1 {
                    assert(has_meas(sp.measurements, ms[k].id));
                } else {
                    assert(ms1[w].m.id == m.id);
                    assert(ms[i - 1].id != ms[k].id);
                }
            }
        }
    }
}

/// Groups with the same ids at every index give the same index for a
/// present id.
proof fn lemma_group_index_stable(
    gs: Seq<GroupCell>,
    base: Seq<GroupCell>,
    gid: Seq<char>,
    j: int,
)
    requires
        gs.len() == base.len(),
        0 <= j < gs.len(),
        gs[j].group.id@ == gid,
        forall|a: int| 0 <= a < gs.len() ==> (#[trigger] gs[a]).group.id@ == base[a].group.id@,
        forall|a: int, b: int|
            0 <= a < b < base.len() ==> (#[trigger] base[a]).group.id@ != (
            #[trigger] base[b]).group.id@,
    ensures
        has_group(gs, gid),
        group_index(gs, gid) == j,
{
    assert(has_group(gs, gid));
    let w = group_index(gs, gid);
    assert(0 <= w < gs.len() && gs[w].group.id@ == gid);
    if w < j {
        assert(base[w].group.id@ != base[j].group.id@);
    } else if j < w {
        assert(base[j].group.id@ != base[w].group.id@);
    }
}

} // verus!

