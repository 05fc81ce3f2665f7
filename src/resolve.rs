//! Release catalog resolver: the release a rollout drives the fleet to, and
//! the version each subnet and the unassigned nodes should run.

use crate::error::RolloutError;
use crate::model::{Release, Subnet, Version};
use crate::text::has_prefix;
use vstd::prelude::*;

verus! {

/// Whether release `r` lists a build with commit id `v`.
pub open spec fn release_has_version(r: Release, v: Seq<char>) -> bool {
    exists|j: int| 0 <= j < r.versions@.len() && #[trigger] r.versions@[j].version@ == v
}

/// Position of the first release at or after `i` that lists `v`, or the
/// catalog's length if there is none.
pub open spec fn release_position_from(releases: Seq<Release>, v: Seq<char>, i: int) -> int
    decreases releases.len() - i,
{
    if i < 0 || i >= releases.len() {
        releases.len() as int
    } else if release_has_version(releases[i], v) {
        i
    } else {
        release_position_from(releases, v, i + 1)
    }
}

/// Position in the catalog of the release that subnet `s` runs, or the
/// catalog's length if its version is not listed.
pub open spec fn release_of(releases: Seq<Release>, s: Subnet) -> int {
    release_position_from(releases, s.replica_version@, 0)
}

/// Whether every subnet runs a version that the catalog lists.
pub open spec fn all_versions_known(releases: Seq<Release>, subnets: Seq<Subnet>) -> bool {
    forall|k: int| 0 <= k < subnets.len() ==> #[trigger] release_of(releases, subnets[k]) < releases.len()
}

/// Whether the fleet runs builds of more than two distinct releases.
pub open spec fn spans_more_than_two(releases: Seq<Release>, subnets: Seq<Subnet>) -> bool {
    exists|a: int, b: int, c: int|
        #![trigger release_of(releases, subnets[a]), release_of(releases, subnets[b]), release_of(releases, subnets[c])]
        0 <= a < subnets.len() && 0 <= b < subnets.len() && 0 <= c < subnets.len()
        && release_of(releases, subnets[a]) < releases.len()
        && release_of(releases, subnets[b]) < releases.len()
        && release_of(releases, subnets[c]) < releases.len()
        && release_of(releases, subnets[a]) != release_of(releases, subnets[b])
        && release_of(releases, subnets[a]) != release_of(releases, subnets[c])
        && release_of(releases, subnets[b]) != release_of(releases, subnets[c])
}

/// Whether the whole fleet runs builds of one release.
pub open spec fn spans_one_release(releases: Seq<Release>, subnets: Seq<Subnet>) -> bool {
    forall|k: int| 0 <= k < subnets.len() ==> #[trigger] release_of(releases, subnets[k]) == release_of(releases, subnets[0])
}

/// The newest release (smallest catalog position) among the first `n` subnets.
pub open spec fn newest_release_upto(releases: Seq<Release>, subnets: Seq<Subnet>, n: int) -> int
    decreases n,
{
    if n <= 1 {
        release_of(releases, subnets[0])
    } else {
        let m = newest_release_upto(releases, subnets, n - 1);
        let r = release_of(releases, subnets[n - 1]);
        if r < m {
            r
        } else {
            m
        }
    }
}

/// The release the rollout drives the fleet to: the newer of two releases in
/// use, or the release just newer than the single one in use (the newest
/// release stays the target once the whole fleet runs it).
pub open spec fn active_release(releases: Seq<Release>, subnets: Seq<Subnet>) -> int {
    let n = newest_release_upto(releases, subnets, subnets.len() as int);
    if spans_one_release(releases, subnets) {
        if n > 0 {
            n - 1
        } else {
            0
        }
    } else {
        n
    }
}

/// The catalog position of the release the rollout drives the fleet to, or
/// the error that prevents deriving it.
pub open spec fn resolve_active(releases: Seq<Release>, subnets: Seq<Subnet>) -> Result<int, RolloutError> {
    if releases.len() == 0 {
        Err(RolloutError::EmptyReleaseCatalog)
    } else if spans_more_than_two(releases, subnets) {
        Err(RolloutError::TooManyActiveReleases)
    } else if subnets.len() == 0 || !all_versions_known(releases, subnets) {
        Err(RolloutError::InvalidPlan)
    } else if releases[active_release(releases, subnets)].versions@.len() == 0 {
        Err(RolloutError::InvalidPlan)
    } else {
        Ok(active_release(releases, subnets))
    }
}

/// Whether build `v` is pinned to the subnet with textual id `id`.
pub open spec fn version_pins(v: Version, id: Seq<char>) -> bool {
    exists|p: int| 0 <= p < v.subnets@.len() && (#[trigger] v.subnets@[p])@.is_prefix_of(id)
}

/// Position of the first build at or after `j` pinned to `id`, or the number
/// of builds if there is none.
pub open spec fn pinned_position_from(versions: Seq<Version>, id: Seq<char>, j: int) -> int
    decreases versions.len() - j,
{
    if j < 0 || j >= versions.len() {
        versions.len() as int
    } else if version_pins(versions[j], id) {
        j
    } else {
        pinned_position_from(versions, id, j + 1)
    }
}

/// Position of the build that subnet `id` should run: the first feature build
/// pinned to it, else the regular build at position 0.
pub open spec fn target_position(versions: Seq<Version>, id: Seq<char>) -> int {
    let j = pinned_position_from(versions, id, 0);
    if j < versions.len() {
        j
    } else {
        0
    }
}

/// Commit id of the build that subnet `id` should run.
pub open spec fn target_version(versions: Seq<Version>, id: Seq<char>) -> Seq<char> {
    versions[target_position(versions, id)].version@
}

/// What the rollout wants, as plain values.
pub ghost struct DesiredModel {
    pub release: int,
    pub subnets: Seq<(Seq<char>, Seq<char>)>,
    pub unassigned_nodes: Seq<char>,
}

/// What the rollout wants: the target release's catalog position, for each
/// subnet of the fleet (in fleet order) its id and target commit id, and the
/// target commit id of the unassigned nodes.
#[derive(Clone, Debug)]
pub struct DesiredReleaseVersion {
    pub release: usize,
    pub subnets: Vec<(String, String)>,
    pub unassigned_nodes: String,
}

impl View for DesiredReleaseVersion {
    type V = DesiredModel;

    open spec fn view(&self) -> DesiredModel {
        DesiredModel {
            release: self.release as int,
            subnets: self.subnets@.map_values(|e: (String, String)| (e.0@, e.1@)),
            unassigned_nodes: self.unassigned_nodes@,
        }
    }
}

/// The targets when release `a` is the active release.
pub open spec fn desired_for(releases: Seq<Release>, subnets: Seq<Subnet>, a: int) -> DesiredModel {
    DesiredModel {
        release: a,
        subnets: Seq::new(
            subnets.len(),
            |k: int| (subnets[k].principal@, target_version(releases[a].versions@, subnets[k].principal@)),
        ),
        unassigned_nodes: releases[a].versions@[0].version@,
    }
}

/// The targets for this fleet and catalog, or the error that prevents them.
pub open spec fn desired_release(releases: Seq<Release>, subnets: Seq<Subnet>) -> Result<DesiredModel, RolloutError> {
    match resolve_active(releases, subnets) {
        Ok(a) => Ok(desired_for(releases, subnets, a)),
        Err(e) => Err(e),
    }
}

/// Whether `x` is one of the (at most two) entries of `s`.
spec fn listed_in(s: Seq<usize>, x: int) -> bool {
    (s.len() >= 1 && s[0] == x) || (s.len() >= 2 && s[1] == x)
}

/// Whether release `r` lists a build with commit id `v`.
fn lists_version(r: &Release, v: &String) -> (b: bool)
    ensures
        b == release_has_version(*r, v@),
{
    let mut j: usize = 0;
    while j < r.versions.len()
        invariant
            j <= r.versions@.len(),
            forall|q: int| 0 <= q < j ==> r.versions@[q].version@ != v@,
        decreases r.versions@.len() - j,
    {
        if r.versions[j].version == *v {
            return true;
        }
        j = j + 1;
    }
    false
}

/// Position of the first release listing `v`, or the catalog's length.
fn find_release(releases: &[Release], v: &String) -> (i: usize)
    ensures
        i as int == release_position_from(releases@, v@, 0),
{
    let mut i: usize = 0;
    while i < releases.len()
        invariant
            i <= releases@.len(),
            release_position_from(releases@, v@, 0) == release_position_from(releases@, v@, i as int),
        decreases releases@.len() - i,
    {
        if lists_version(&releases[i], v) {
            return i;
        }
        i = i + 1;
    }
    i
}

/// Whether build `v` is pinned to the subnet with textual id `id`.
fn pins(v: &Version, id: &String) -> (b: bool)
    ensures
        b == version_pins(*v, id@),
{
    let mut p: usize = 0;
    while p < v.subnets.len()
        invariant
            p <= v.subnets@.len(),
            forall|q: int| 0 <= q < p ==> !(#[trigger] v.subnets@[q])@.is_prefix_of(id@),
        decreases v.subnets@.len() - p,
    {
        if has_prefix(id.as_str(), v.subnets[p].as_str()) {
            return true;
        }
        p = p + 1;
    }
    false
}

/// Position of the build that subnet `id` should run.
fn find_target(versions: &Vec<Version>, id: &String) -> (j: usize)
    requires
        versions@.len() > 0,
    ensures
        j as int == target_position(versions@, id@),
        j < versions@.len(),
{
    let mut j: usize = 0;
    while j < versions.len()
        invariant
            j <= versions@.len(),
            pinned_position_from(versions@, id@, 0) == pinned_position_from(versions@, id@, j as int),
        decreases versions@.len() - j,
    {
        if pins(&versions[j], id) {
            return j;
        }
        j = j + 1;
    }
    0
}

/// Derives the target release and the target build of every subnet and of
/// the unassigned nodes from the fleet and the catalog (newest release first).
///
/// Fails with `EmptyReleaseCatalog` on an empty catalog, with
/// `TooManyActiveReleases` when the fleet spans more than two releases, and
/// with `InvalidPlan` when the fleet is empty, a subnet runs a version that
/// no release lists, or the target release lists no build.
pub fn desired_rollout_release_version(subnets: &[Subnet], releases: &[Release]) -> (r: Result<DesiredReleaseVersion, RolloutError>)
    ensures
        r matches Ok(d) ==> d.release < releases@.len(),
        match r {
            Ok(d) => desired_release(releases@, subnets@) == Ok::<DesiredModel, RolloutError>(d@),
            Err(e) => desired_release(releases@, subnets@) == Err::<DesiredModel, RolloutError>(e),
        },
{
    if releases.len() == 0 {
        return Err(RolloutError::EmptyReleaseCatalog);
    }
    let n_releases = releases.len();
    // Distinct releases in use, in order of first appearance.
    let mut in_use: Vec<usize> = Vec::new();
    let mut all_known = true;
    let mut newest: usize = 0;
    let mut i: usize = 0;
    while i < subnets.len()
        invariant
            n_releases == releases@.len(),
            i <= subnets@.len(),
            in_use@.len() <= 2,
            in_use@.len() == 2 ==> in_use@[0] != in_use@[1],
            forall|u: int| 0 <= u < in_use@.len() ==> in_use@[u] < n_releases,
            forall|u: int| #![trigger in_use@[u]] 0 <= u < in_use@.len() ==> exists|k: int| 0 <= k < i && #[trigger] release_of(releases@, subnets@[k]) == in_use@[u],
            forall|k: int| 0 <= k < i && #[trigger] release_of(releases@, subnets@[k]) < n_releases ==> listed_in(in_use@, release_of(releases@, subnets@[k])),
            all_known == (forall|k: int| 0 <= k < i ==> #[trigger] release_of(releases@, subnets@[k]) < n_releases),
            i > 0 ==> newest as int == newest_release_upto(releases@, subnets@, i as int),
            i > 0 && all_known ==> newest < n_releases,
        decreases subnets@.len() - i,
    {
        let p = find_release(releases, &subnets[i].replica_version);
        assert(p as int == release_of(releases@, subnets@[i as int]));
        if p < n_releases {
            let seen = (in_use.len() >= 1 && in_use[0] == p) || (in_use.len() >= 2 && in_use[1] == p);
            if !seen {
                if in_use.len() == 2 {
                    proof {
                        let k0 = choose|k: int| 0 <= k < i && #[trigger] release_of(releases@, subnets@[k]) == in_use@[0];
                        let k1 = choose|k: int| 0 <= k < i && #[trigger] release_of(releases@, subnets@[k]) == in_use@[1];
                        assert(spans_more_than_two(releases@, subnets@)) by {
                            assert(release_of(releases@, subnets@[k0]) == in_use@[0]);
                            assert(release_of(releases@, subnets@[k1]) == in_use@[1]);
                            assert(release_of(releases@, subnets@[i as int]) == p);
                        }
                    }
                    return Err(RolloutError::TooManyActiveReleases);
                }
                in_use.push(p);
            }
        } else {
            all_known = false;
        }
        if i == 0 || p < newest {
            newest = p;
        }
        proof {
            assert forall|u: int| #![trigger in_use@[u]] 0 <= u < in_use@.len() implies exists|k: int| 0 <= k < i + 1 && #[trigger] release_of(releases@, subnets@[k]) == in_use@[u] by {
                if in_use@[u] == p {
                    assert(release_of(releases@, subnets@[i as int]) == in_use@[u]);
                } else {
                    let k = choose|k: int| 0 <= k < i && #[trigger] release_of(releases@, subnets@[k]) == in_use@[u];
                    assert(release_of(releases@, subnets@[k]) == in_use@[u]);
                }
            }
            assert forall|k: int| 0 <= k < i + 1 && #[trigger] release_of(releases@, subnets@[k]) < n_releases implies listed_in(in_use@, release_of(releases@, subnets@[k])) by {
                if k == i {
                    if !listed_in(in_use@, p as int) {
                        assert(false);
                    }
                }
            }
        }
        i = i + 1;
    }
    proof {
        // No three distinct releases can fit in `in_use`.
        if spans_more_than_two(releases@, subnets@) {
            let (a, b, c) = choose|a: int, b: int, c: int|
                #![trigger release_of(releases@, subnets@[a]), release_of(releases@, subnets@[b]), release_of(releases@, subnets@[c])]
                0 <= a < subnets@.len() && 0 <= b < subnets@.len() && 0 <= c < subnets@.len()
                && release_of(releases@, subnets@[a]) < releases@.len()
                && release_of(releases@, subnets@[b]) < releases@.len()
                && release_of(releases@, subnets@[c]) < releases@.len()
                && release_of(releases@, subnets@[a]) != release_of(releases@, subnets@[b])
                && release_of(releases@, subnets@[a]) != release_of(releases@, subnets@[c])
                && release_of(releases@, subnets@[b]) != release_of(releases@, subnets@[c]);
            assert(listed_in(in_use@, release_of(releases@, subnets@[a])));
            assert(listed_in(in_use@, release_of(releases@, subnets@[b])));
            assert(listed_in(in_use@, release_of(releases@, subnets@[c])));
            assert(false);
        }
    }
    if subnets.len() == 0 || !all_known {
        return Err(RolloutError::InvalidPlan);
    }
    let single = in_use.len() == 1;
    proof {
        if single {
            assert forall|k: int| 0 <= k < subnets@.len() implies #[trigger] release_of(releases@, subnets@[k]) == release_of(releases@, subnets@[0]) by {
                assert(listed_in(in_use@, release_of(releases@, subnets@[k])));
                assert(listed_in(in_use@, release_of(releases@, subnets@[0])));
            }
        } else {
            assert(listed_in(in_use@, release_of(releases@, subnets@[0])));
            let k0 = choose|k: int| 0 <= k < subnets@.len() && #[trigger] release_of(releases@, subnets@[k]) == in_use@[0];
            let k1 = choose|k: int| 0 <= k < subnets@.len() && #[trigger] release_of(releases@, subnets@[k]) == in_use@[1];
            assert(release_of(releases@, subnets@[k0]) != release_of(releases@, subnets@[k1]));
            assert(!spans_one_release(releases@, subnets@));
        }
    }
    let active: usize = if single {
        if newest > 0 {
            newest - 1
        } else {
            0
        }
    } else {
        newest
    };
    assert(active as int == active_release(releases@, subnets@));
    let versions = &releases[active].versions;
    if versions.len() == 0 {
        return Err(RolloutError::InvalidPlan);
    }
    let mut targets: Vec<(String, String)> = Vec::new();
    let mut k: usize = 0;
    while k < subnets.len()
        invariant
            k <= subnets@.len(),
            versions@.len() > 0,
            *versions == releases@[active as int].versions,
            targets@.len() == k,
            forall|q: int| 0 <= q < k ==> (#[trigger] targets@[q]).0@ == subnets@[q].principal@
                && targets@[q].1@ == target_version(versions@, subnets@[q].principal@),
        decreases subnets@.len() - k,
    {
        let id = &subnets[k].principal;
        let j = find_target(versions, id);
        targets.push((id.clone(), versions[j].version.clone()));
        k = k + 1;
    }
    let d = DesiredReleaseVersion { release: active, subnets: targets, unassigned_nodes: versions[0].version.clone() };
    assert(d@.subnets =~= desired_for(releases@, subnets@, active as int).subnets);
    Ok(d)
}

} // verus!
