//! Grouping for the short display mode: packages are grouped under their
//! license identifier, in insertion order of first occurrence; records
//! without an identifier contribute to no group.

use vstd::prelude::*;
use crate::records::PackageList;
use crate::records::RecordView;

verus! {

/// One license identifier together with the names of the packages that
/// carry it, in input order.
pub struct LicenseGroup {
    pub license: String,
    pub members: Vec<String>,
}

/// Mathematical image of a [`LicenseGroup`].
pub ghost struct GroupView {
    pub license: Seq<char>,
    pub members: Seq<Seq<char>>,
}

impl View for LicenseGroup {
    type V = GroupView;

    open spec fn view(&self) -> GroupView {
        GroupView {
            license: self.license@,
            members: self.members@.map_values(|m: String| m@),
        }
    }
}

/// The views of a vector of groups.
pub open spec fn groups_view(gs: Seq<LicenseGroup>) -> Seq<GroupView> {
    gs.map_values(|g: LicenseGroup| g@)
}

/// Index of the first group at or after position `k` that carries this
/// license, or -1 when none does.
pub open spec fn find_group_from(gs: Seq<GroupView>, lic: Seq<char>, k: int) -> int
    recommends
        0 <= k <= gs.len(),
    decreases gs.len() - k,
    when 0 <= k <= gs.len()
{
    if k >= gs.len() {
        -1
    } else if gs[k].license == lic {
        k
    } else {
        find_group_from(gs, lic, k + 1)
    }
}

/// Index of the first group that carries this license, or -1 when none does.
pub open spec fn find_group(gs: Seq<GroupView>, lic: Seq<char>) -> int {
    find_group_from(gs, lic, 0)
}

/// One grouping step: a record with an identifier joins the group first
/// created for it, or opens a new group at the end; a record without an
/// identifier changes nothing.
pub open spec fn add_record_to_groups(gs: Seq<GroupView>, r: RecordView) -> Seq<GroupView> {
    match r.license_identifier {
        None => gs,
        Some(lic) => {
            let j = find_group(gs, lic);
            if j == -1 {
                gs.push(GroupView { license: lic, members: seq![r.name] })
            } else {
                gs.update(j, GroupView { license: lic, members: gs[j].members.push(r.name) })
            }
        },
    }
}

/// The grouping of a whole list, built record by record from the front.
pub open spec fn groups_of(s: Seq<RecordView>) -> Seq<GroupView>
    decreases s.len(),
{
    if s.len() == 0 {
        Seq::<GroupView>::empty()
    } else {
        add_record_to_groups(groups_of(s.drop_last()), s.last())
    }
}

/// Total number of group members over all groups.
pub open spec fn member_count(gs: Seq<GroupView>) -> int
    decreases gs.len(),
{
    if gs.len() == 0 {
        0
    } else {
        member_count(gs.drop_last()) + gs.last().members.len()
    }
}

/// Number of records that carry a license identifier.
pub open spec fn licensed_count(s: Seq<RecordView>) -> int
    decreases s.len(),
{
    if s.len() == 0 {
        0
    } else {
        licensed_count(s.drop_last()) + if s.last().license_identifier is Some {
            1int
        } else {
            0int
        }
    }
}

/// Updating one group changes the member total by that group's change.
proof fn lemma_member_count_update(gs: Seq<GroupView>, j: int, g: GroupView)
    requires
        0 <= j < gs.len(),
    ensures
        member_count(gs.update(j, g)) == member_count(gs) - gs[j].members.len()
            + g.members.len(),
    decreases gs.len(),
{
    if j == gs.len() - 1 {
        assert(gs.update(j, g).drop_last() =~= gs.drop_last());
        assert(gs.update(j, g).last() == g);
    } else {
        assert(gs.update(j, g).drop_last() =~= gs.drop_last().update(j, g));
        assert(gs.update(j, g).last() == gs.last());
        lemma_member_count_update(gs.drop_last(), j, g);
    }
}

/// One grouping step adds one member exactly when the record carries an
/// identifier.
proof fn lemma_add_record_member_count(gs: Seq<GroupView>, r: RecordView)
    ensures
        member_count(add_record_to_groups(gs, r)) == member_count(gs) + if r
            .license_identifier is Some {
            1int
        } else {
            0int
        },
{
    match r.license_identifier {
        None => {},
        Some(lic) => {
            lemma_find_group_from_range(gs, lic, 0);
            let j = find_group(gs, lic);
            if j == -1 {
                let g = GroupView { license: lic, members: seq![r.name] };
                assert(gs.push(g).drop_last() =~= gs);
                assert(gs.push(g).last() == g);
            } else {
                let g = GroupView { license: lic, members: gs[j].members.push(r.name) };
                lemma_member_count_update(gs, j, g);
            }
        },
    }
}

/// Law: the grouping covers exactly the records with a present license
/// identifier — the group member totals sum to the number of records that
/// carry an identifier, so no such record is dropped and none is counted
/// twice.
pub proof fn lemma_grouping_covers(s: Seq<RecordView>)
    ensures
        member_count(groups_of(s)) == licensed_count(s),
    decreases s.len(),
{
    if s.len() > 0 {
        lemma_grouping_covers(s.drop_last());
        lemma_add_record_member_count(groups_of(s.drop_last()), s.last());
    }
}

/// A group with zero members cannot occur: a group is only created together
/// with its first member, and members are never removed.
pub proof fn lemma_groups_nonempty(s: Seq<RecordView>)
    ensures
        forall|j: int|
            0 <= j < groups_of(s).len() ==> #[trigger] groups_of(s)[j].members.len() >= 1,
    decreases s.len(),
{
    if s.len() > 0 {
        lemma_groups_nonempty(s.drop_last());
        let prev = groups_of(s.drop_last());
        let r = s.last();
        match r.license_identifier {
            None => {},
            Some(lic) => {
                lemma_find_group_from_range(prev, lic, 0);
                let j = find_group(prev, lic);
                assert forall|k: int| 0 <= k < groups_of(s).len() implies #[trigger] groups_of(
                    s,
                )[k].members.len() >= 1 by {
                    if j == -1 {
                        if k < prev.len() {
                            assert(groups_of(s)[k] == prev[k]);
                        }
                    } else {
                        if k != j {
                            assert(groups_of(s)[k] == prev[k]);
                        }
                    }
                }
            },
        }
    }
}

/// When no index is found, no group at or after the start carries the
/// license.
proof fn lemma_find_group_from_none(gs: Seq<GroupView>, lic: Seq<char>, k: int)
    requires
        0 <= k <= gs.len(),
        find_group_from(gs, lic, k) == -1,
    ensures
        forall|j: int| k <= j < gs.len() ==> #[trigger] gs[j].license != lic,
    decreases gs.len() - k,
{
    if k < gs.len() {
        lemma_find_group_from_none(gs, lic, k + 1);
    }
}

/// Law: no two groups carry the same license identifier — a group is
/// created only on an identifier's first occurrence, and later records with
/// that identifier join the existing group.
pub proof fn lemma_group_licenses_distinct(s: Seq<RecordView>)
    ensures
        forall|i: int, j: int|
            0 <= i < j < groups_of(s).len() ==> #[trigger] groups_of(s)[i].license != #[trigger] groups_of(
                s,
            )[j].license,
    decreases s.len(),
{
    if s.len() > 0 {
        lemma_group_licenses_distinct(s.drop_last());
        let prev = groups_of(s.drop_last());
        let r = s.last();
        let cur = groups_of(s);
        match r.license_identifier {
            None => {},
            Some(lic) => {
                let k = find_group(prev, lic);
                lemma_find_group_from_range(prev, lic, 0);
                if k == -1 {
                    lemma_find_group_from_none(prev, lic, 0);
                    assert forall|i: int, j: int| 0 <= i < j < cur.len() implies #[trigger] cur[i].license
                        != #[trigger] cur[j].license by {
                        if j < prev.len() {
                            assert(cur[i] == prev[i] && cur[j] == prev[j]);
                        } else {
                            assert(cur[i] == prev[i] && cur[j].license == lic);
                        }
                    }
                } else {
                    assert forall|i: int, j: int| 0 <= i < j < cur.len() implies #[trigger] cur[i].license
                        != #[trigger] cur[j].license by {
                        assert(cur[i].license == prev[i].license);
                        assert(cur[j].license == prev[j].license);
                    }
                }
            },
        }
    }
}

/// A found index is in range and carries the license.
proof fn lemma_find_group_from_range(gs: Seq<GroupView>, lic: Seq<char>, k: int)
    requires
        0 <= k <= gs.len(),
    ensures
        find_group_from(gs, lic, k) == -1 || (k <= find_group_from(gs, lic, k) < gs.len()
            && gs[find_group_from(gs, lic, k)].license == lic),
    decreases gs.len() - k,
{
    if k < gs.len() && !(gs[k].license == lic) {
        lemma_find_group_from_range(gs, lic, k + 1);
    }
}

/// First index among the groups that carries the license, if any.
fn find_group_index(gs: &Vec<LicenseGroup>, lic: &String) -> (r: Option<usize>)
    ensures
        match r {
            None => find_group(groups_view(gs@), lic@) == -1,
            Some(j) => j == find_group(groups_view(gs@), lic@),
        },
{
    let ghost gv = groups_view(gs@);
    let mut k: usize = 0;
    while k < gs.len()
        invariant
            0 <= k <= gs.len(),
            gv == groups_view(gs@),
            gv.len() == gs@.len(),
            find_group(gv, lic@) == find_group_from(gv, lic@, k as int),
        decreases gs.len() - k,
    {
        if gs[k].license == *lic {
            return Some(k);
        }
        k = k + 1;
    }
    None
}

/// Groups the list's records by license identifier for the short display
/// mode: group order is first-occurrence order, member order is input order,
/// and records without an identifier are left out.
pub fn group_by_license(pl: &PackageList) -> (gs: Vec<LicenseGroup>)
    ensures
        groups_view(gs@) == groups_of(pl@),
{
    let mut gs: Vec<LicenseGroup> = Vec::new();
    proof {
        assert(groups_view(gs@) =~= groups_of(pl@.take(0)));
    }
    let mut i: usize = 0;
    while i < pl.records.len()
        invariant
            i <= pl.records.len(),
            pl.records.len() == pl@.len(),
            groups_view(gs@) == groups_of(pl@.take(i as int)),
        decreases pl.records.len() - i,
    {
        let ghost prev = groups_view(gs@);
        let ghost rv = pl@[i as int];
        proof {
            assert(pl@.take(i as int + 1).drop_last() =~= pl@.take(i as int));
            assert(pl@.take(i as int + 1).last() == rv);
        }
        let rec = &pl.records[i];
        match &rec.license_identifier {
            None => {
                proof {
                    assert(rv.license_identifier is None);
                }
            },
            Some(lic) => {
                proof {
                    assert(rv.license_identifier == Some(lic@));
                }
                match find_group_index(&gs, lic) {
                    None => {
                        let mut members: Vec<String> = Vec::new();
                        members.push(rec.name.clone());
                        gs.push(LicenseGroup { license: lic.clone(), members });
                        proof {
                            let g = gs@.last()@;
                            assert(g.members =~= seq![rv.name]);
                            assert(groups_view(gs@) =~= prev.push(g));
                            assert(groups_view(gs@) =~= add_record_to_groups(prev, rv));
                        }
                    },
                    Some(j) => {
                        proof {
                            lemma_find_group_from_range(prev, lic@, 0);
                        }
                        let ghost vec_prev = gs@;
                        let mut grp = gs.remove(j);
                        let ghost old_g = grp@;
                        grp.members.push(rec.name.clone());
                        proof {
                            assert(grp@.members =~= old_g.members.push(rv.name));
                            assert(grp@.license == lic@);
                        }
                        gs.insert(j, grp);
                        proof {
                            let g = GroupView {
                                license: lic@,
                                members: prev[j as int].members.push(rv.name),
                            };
                            assert(prev[j as int].license == lic@);
                            assert(gs@ =~= vec_prev.update(j as int, grp));
                            assert(gs@[j as int]@ == g);
                            assert(groups_view(gs@) =~= prev.update(j as int, g));
                            assert(groups_view(gs@) =~= add_record_to_groups(prev, rv));
                        }
                    },
                }
            },
        }
        i = i + 1;
    }
    proof {
        assert(pl@.take(pl@.len() as int) =~= pl@);
    }
    gs
}

} // verus!
