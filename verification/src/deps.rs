//! Dependency-graph analysis and orphan detection: which library packages
//! are used only by binaries that have never been seen executing.
//!
//! The platform tool that lists a binary's libraries and the package-query
//! tools run outside; this module decides when a binary needs re-analysis,
//! joins libraries to their owning packages, and computes the orphan
//! report.

use vstd::prelude::*;

use crate::ledger::{
    BinaryRecord, DepEdge, LibPackageInfo, RecV, DepV, LibPkgV, recs_view, deps_view,
    libpkgs_view, strs_view, seq_has, has_record, count_of, bin_keys, spec_users_of,
    lemma_key_index, key_index, contains_str,
};
use vstd::multiset::Multiset;

verus! {

/// One dynamic-library dependency of a binary.
pub struct DylibDep {
    pub path: String,
}

/// The direct dynamic-library dependencies one analysis found.
pub struct DylibAnalysis {
    pub libs: Vec<DylibDep>,
}

/// A library package's known installed size, as the package-query tool
/// reported it (`None` when the lookup failed).
pub struct PackageSize {
    pub manager: String,
    pub package_name: String,
    pub size_bytes: Option<u64>,
}

/// A library package used exclusively by never-executed binaries.
pub struct OrphanPackage {
    pub manager: String,
    pub package_name: String,
    pub size_bytes: Option<u64>,
    pub used_by_dusty: Vec<String>,
}

/// The full orphan report.
pub struct DepsReport {
    pub orphan_packages: Vec<OrphanPackage>,
    pub total_freeable_bytes: u64,
    pub binaries_analyzed: usize,
    pub total_lib_packages: usize,
}

/// One library of a single binary, joined with its owning package when the
/// cache knows it.
pub struct ResolvedLib {
    pub lib_path: String,
    pub package_name: Option<String>,
    pub manager: Option<String>,
}

/// A single binary's resolved library list.
pub struct SingleBinaryDeps {
    pub binary_path: String,
    pub libs: Vec<ResolvedLib>,
}

/// Mathematical model of a (manager, package) pair.
#[verifier::ext_equal]
pub ghost struct PairV {
    pub manager: Seq<char>,
    pub package: Seq<char>,
}

/// Mathematical model of an orphan entry.
#[verifier::ext_equal]
pub ghost struct OrphanV {
    pub manager: Seq<char>,
    pub package: Seq<char>,
    pub size: Option<int>,
    pub users: Seq<Seq<char>>,
}

pub open spec fn opt_u64_view(o: Option<u64>) -> Option<int> {
    match o {
        Some(x) => Some(x as int),
        None => None,
    }
}

impl View for OrphanPackage {
    type V = OrphanV;

    open spec fn view(&self) -> OrphanV {
        OrphanV {
            manager: self.manager@,
            package: self.package_name@,
            size: opt_u64_view(self.size_bytes),
            users: strs_view(self.used_by_dusty@),
        }
    }
}

pub open spec fn orphans_view(s: Seq<OrphanPackage>) -> Seq<OrphanV> {
    s.map_values(|o: OrphanPackage| o@)
}

pub open spec fn pair_of(l: LibPkgV) -> PairV {
    PairV { manager: l.manager, package: l.package }
}

pub open spec fn pair_in(pairs: Seq<PairV>, p: PairV) -> bool {
    exists|i: int| 0 <= i < pairs.len() && pairs[i] == p
}

/// The distinct (manager, package) pairs among the cached resolutions, in
/// first-appearance order.
pub open spec fn spec_pkg_pairs(s: Seq<LibPkgV>) -> Seq<PairV>
    decreases s.len(),
{
    if s.len() == 0 {
        Seq::empty()
    } else {
        let p = spec_pkg_pairs(s.drop_last());
        if pair_in(p, pair_of(s.last())) {
            p
        } else {
            p.push(pair_of(s.last()))
        }
    }
}

/// Append the new names to the accumulator, skipping ones already present.
pub open spec fn spec_append_dedup(acc: Seq<Seq<char>>, items: Seq<Seq<char>>) -> Seq<Seq<char>>
    decreases items.len(),
{
    if items.len() == 0 {
        acc
    } else {
        let p = spec_append_dedup(acc, items.drop_last());
        if seq_has(p, items.last()) {
            p
        } else {
            p.push(items.last())
        }
    }
}

/// The binaries depending on any library file the cache attributes to
/// `pair`: resolution rows in order, each row's dependants in edge order,
/// first appearance kept.
pub open spec fn spec_users_acc(
    libpkgs: Seq<LibPkgV>,
    deps: Seq<DepV>,
    pair: PairV,
) -> Seq<Seq<char>>
    decreases libpkgs.len(),
{
    if libpkgs.len() == 0 {
        Seq::empty()
    } else {
        let p = spec_users_acc(libpkgs.drop_last(), deps, pair);
        if pair_of(libpkgs.last()) == pair {
            spec_append_dedup(p, spec_users_of(deps, libpkgs.last().lib))
        } else {
            p
        }
    }
}

/// A tracked binary that has been seen executing.
pub open spec fn spec_active(bins: Seq<RecV>, p: Seq<char>) -> bool {
    count_of(bins, p) > 0
}

/// A tracked binary that has never been seen executing.
pub open spec fn spec_dusty(bins: Seq<RecV>, p: Seq<char>) -> bool {
    has_record(bins, p) && count_of(bins, p) == 0
}

/// Orphan membership: the pair's user set is non-empty, no user is active,
/// and at least one user is dusty.
pub open spec fn spec_is_orphan(
    libpkgs: Seq<LibPkgV>,
    deps: Seq<DepV>,
    bins: Seq<RecV>,
    pair: PairV,
) -> bool {
    let users = spec_users_acc(libpkgs, deps, pair);
    &&& users.len() > 0
    &&& forall|i: int| 0 <= i < users.len() ==> !spec_active(bins, #[trigger] users[i])
    &&& exists|i: int| 0 <= i < users.len() && spec_dusty(bins, users[i])
}

/// The dusty members of the user list, in order.
pub open spec fn spec_dusty_users(users: Seq<Seq<char>>, bins: Seq<RecV>) -> Seq<Seq<char>>
    decreases users.len(),
{
    if users.len() == 0 {
        Seq::empty()
    } else {
        let p = spec_dusty_users(users.drop_last(), bins);
        if spec_dusty(bins, users.last()) {
            p.push(users.last())
        } else {
            p
        }
    }
}

/// The orphan entries for the given pairs, in order, before size lookup.
pub open spec fn spec_orphans_from(
    pairs: Seq<PairV>,
    libpkgs: Seq<LibPkgV>,
    deps: Seq<DepV>,
    bins: Seq<RecV>,
) -> Seq<OrphanV>
    decreases pairs.len(),
{
    if pairs.len() == 0 {
        Seq::empty()
    } else {
        let p = spec_orphans_from(pairs.drop_last(), libpkgs, deps, bins);
        let pr = pairs.last();
        if spec_is_orphan(libpkgs, deps, bins, pr) {
            p.push(
                OrphanV {
                    manager: pr.manager,
                    package: pr.package,
                    size: None,
                    users: spec_dusty_users(spec_users_acc(libpkgs, deps, pr), bins),
                },
            )
        } else {
            p
        }
    }
}

/// The orphan candidates of a store snapshot, in first-appearance pair
/// order.
pub open spec fn spec_orphans(
    libpkgs: Seq<LibPkgV>,
    deps: Seq<DepV>,
    bins: Seq<RecV>,
) -> Seq<OrphanV> {
    spec_orphans_from(spec_pkg_pairs(libpkgs), libpkgs, deps, bins)
}

/// Whether a binary needs its dependencies analyzed again: never analyzed,
/// or the file's modification time changed since the recorded analysis.
/// An unchanged modification time means no re-analysis.
pub fn needs_reanalysis(cached: &Option<(i64, Option<i64>)>, current_mtime: Option<i64>) -> (r:
    bool)
    ensures
        r == match cached {
            None => true,
            Some((_at, m)) => *m != current_mtime,
        },
{
    match cached {
        None => true,
        Some((_at, m)) => {
            match (m, current_mtime) {
                (None, None) => false,
                (Some(a), Some(b)) => *a != b,
                _ => true,
            }
        },
    }
}

/// The binaries recorded as depending on `lib`, in edge order.
fn edge_users(deps: &Vec<DepEdge>, lib: &String) -> (r: Vec<String>)
    ensures
        strs_view(r@) == spec_users_of(deps_view(deps@), lib@),
{
    let n = deps.len();
    let mut out: Vec<String> = Vec::new();
    let mut i: usize = 0;
    while i < n
        invariant
            0 <= i <= n,
            n == deps@.len(),
            strs_view(out@) =~= spec_users_of(deps_view(deps@).take(i as int), lib@),
        decreases n - i,
    {
        proof {
            assert(deps_view(deps@).take(i + 1).drop_last() =~= deps_view(deps@).take(i as int));
            assert(deps_view(deps@).take(i + 1).last() == deps_view(deps@)[i as int]);
        }
        if deps[i].lib_path == *lib {
            let copy = deps[i].binary_path.clone();
            out.push(copy);
        }
        i = i + 1;
    }
    proof {
        assert(deps_view(deps@).take(n as int) =~= deps_view(deps@));
    }
    out
}

/// All binaries the cache attributes to `pair`, deduplicated, in
/// first-appearance order.
fn users_for_pair(
    lib_packages: &Vec<LibPackageInfo>,
    deps: &Vec<DepEdge>,
    manager: &String,
    package: &String,
) -> (r: Vec<String>)
    ensures
        strs_view(r@) == spec_users_acc(
            libpkgs_view(lib_packages@),
            deps_view(deps@),
            PairV { manager: manager@, package: package@ },
        ),
{
    let ghost pair = PairV { manager: manager@, package: package@ };
    let ghost lp = libpkgs_view(lib_packages@);
    let n = lib_packages.len();
    let mut out: Vec<String> = Vec::new();
    let mut i: usize = 0;
    while i < n
        invariant
            0 <= i <= n,
            n == lib_packages@.len(),
            strs_view(out@) =~= spec_users_acc(lp.take(i as int), deps_view(deps@), pair),
        decreases n - i,
    {
        proof {
            assert(lp.take(i + 1).drop_last() =~= lp.take(i as int));
            assert(lp.take(i + 1).last() == lp[i as int]);
        }
        if lib_packages[i].manager == *manager && lib_packages[i].package_name == *package {
            let users = edge_users(deps, &lib_packages[i].lib_path);
            let ghost users_v = strs_view(users@);
            let ghost acc0 = strs_view(out@);
            let m = users.len();
            let mut j: usize = 0;
            while j < m
                invariant
                    0 <= j <= m,
                    m == users@.len(),
                    users_v == strs_view(users@),
                    strs_view(out@) =~= spec_append_dedup(acc0, users_v.take(j as int)),
                decreases m - j,
            {
                proof {
                    assert(users_v.take(j + 1).drop_last() =~= users_v.take(j as int));
                    assert(users_v.take(j + 1).last() == users_v[j as int]);
                }
                if !contains_str(&out, &users[j]) {
                    let copy = users[j].clone();
                    out.push(copy);
                }
                j = j + 1;
            }
            proof {
                assert(users_v.take(m as int) =~= users_v);
                assert(pair_of(lp[i as int]) == pair);
            }
        } else {
            proof {
                assert(pair_of(lp[i as int]) != pair);
            }
        }
        i = i + 1;
    }
    proof {
        assert(lp.take(n as int) =~= lp);
    }
    out
}

/// The count stored for `p` among the records, if `p` is tracked.
fn lookup_count(binaries: &Vec<BinaryRecord>, p: &String) -> (r: Option<i64>)
    ensures
        match r {
            Some(c) => has_record(recs_view(binaries@), p@) && c == count_of(
                recs_view(binaries@),
                p@,
            ),
            None => !has_record(recs_view(binaries@), p@),
        },
{
    let ghost bins = recs_view(binaries@);
    proof {
        lemma_key_index(bin_keys(bins), p@);
    }
    let n = binaries.len();
    let mut i: usize = 0;
    while i < n
        invariant
            0 <= i <= n,
            n == binaries@.len(),
            forall|j: int| 0 <= j < i ==> bin_keys(bins)[j] != p@,
        decreases n - i,
    {
        if binaries[i].path == *p {
            proof {
                assert(bin_keys(bins)[i as int] == p@);
                assert(key_index(bin_keys(bins), p@) == i);
            }
            return Some(binaries[i].count);
        }
        assert(bin_keys(bins)[i as int] != p@);
        i = i + 1;
    }
    proof {
        if has_record(bins, p@) {
            let j = choose|j: int| 0 <= j < bin_keys(bins).len() && bin_keys(bins)[j] == p@;
        }
    }
    None
}

/// The orphan candidates of a store snapshot: each distinct (manager,
/// package) pair whose user set is non-empty, has no active member and has
/// a dusty member, with its dusty users, sizes not yet attached.
pub fn orphan_candidates(
    binaries: &Vec<BinaryRecord>,
    deps: &Vec<DepEdge>,
    lib_packages: &Vec<LibPackageInfo>,
) -> (r: Vec<OrphanPackage>)
    ensures
        orphans_view(r@) == spec_orphans(
            libpkgs_view(lib_packages@),
            deps_view(deps@),
            recs_view(binaries@),
        ),
{
    let ghost lp = libpkgs_view(lib_packages@);
    let ghost dv = deps_view(deps@);
    let ghost bins = recs_view(binaries@);

    // Distinct pairs, in first-appearance order.
    let mut managers: Vec<String> = Vec::new();
    let mut packages: Vec<String> = Vec::new();
    let n = lib_packages.len();
    let mut i: usize = 0;
    while i < n
        invariant
            0 <= i <= n,
            n == lib_packages@.len(),
            managers@.len() == packages@.len(),
            ({
                let pairs = spec_pkg_pairs(lp.take(i as int));
                &&& managers@.len() == pairs.len()
                &&& forall|j: int| 0 <= j < pairs.len() ==> #[trigger] pairs[j] == (PairV {
                    manager: managers@[j]@,
                    package: packages@[j]@,
                })
            }),
        decreases n - i,
    {
        proof {
            assert(lp.take(i + 1).drop_last() =~= lp.take(i as int));
            assert(lp.take(i + 1).last() == lp[i as int]);
        }
        let ghost pairs_pre = spec_pkg_pairs(lp.take(i as int));
        // Is this row's pair already collected?
        let mut seen = false;
        let m = managers.len();
        let mut j: usize = 0;
        while j < m
            invariant
                0 <= j <= m,
                m == managers@.len(),
                m == packages@.len(),
                forall|k: int| 0 <= k < pairs_pre.len() ==> #[trigger] pairs_pre[k] == (PairV {
                    manager: managers@[k]@,
                    package: packages@[k]@,
                }),
                m == pairs_pre.len(),
                seen ==> pair_in(pairs_pre, pair_of(lp[i as int])),
                !seen ==> forall|k: int| 0 <= k < j ==> pairs_pre[k] != pair_of(lp[i as int]),
            decreases m - j,
        {
            if managers[j] == lib_packages[i].manager && packages[j] == lib_packages[i].package_name {
                proof {
                    assert(pairs_pre[j as int] == pair_of(lp[i as int]));
                }
                seen = true;
                j = m;
            } else {
                proof {
                    assert(pairs_pre[j as int] != pair_of(lp[i as int]));
                }
                j = j + 1;
            }
        }
        if !seen {
            proof {
                assert(!pair_in(pairs_pre, pair_of(lp[i as int]))) by {
                    if pair_in(pairs_pre, pair_of(lp[i as int])) {
                        let k = choose|k: int|
                            0 <= k < pairs_pre.len() && pairs_pre[k] == pair_of(lp[i as int]);
                    }
                }
            }
            let mg = lib_packages[i].manager.clone();
            let pk = lib_packages[i].package_name.clone();
            managers.push(mg);
            packages.push(pk);
        }
        i = i + 1;
    }
    proof {
        assert(lp.take(n as int) =~= lp);
    }

    // Filter the pairs down to orphans.
    let ghost pairs = spec_pkg_pairs(lp);
    let np = managers.len();
    let mut out: Vec<OrphanPackage> = Vec::new();
    let mut k: usize = 0;
    while k < np
        invariant
            0 <= k <= np,
            np == managers@.len(),
            np == packages@.len(),
            np == pairs.len(),
            forall|j: int| 0 <= j < pairs.len() ==> #[trigger] pairs[j] == (PairV {
                manager: managers@[j]@,
                package: packages@[j]@,
            }),
            orphans_view(out@) =~= spec_orphans_from(pairs.take(k as int), lp, dv, bins),
        decreases np - k,
    {
        proof {
            assert(pairs.take(k + 1).drop_last() =~= pairs.take(k as int));
            assert(pairs.take(k + 1).last() == pairs[k as int]);
        }
        let ghost pr = pairs[k as int];
        let users = users_for_pair(lib_packages, deps, &managers[k], &packages[k]);
        let ghost users_v = strs_view(users@);

        let nu = users.len();
        let mut any_active = false;
        let mut any_dusty = false;
        let mut dusty_users: Vec<String> = Vec::new();
        let mut u: usize = 0;
        while u < nu
            invariant
                0 <= u <= nu,
                nu == users@.len(),
                users_v == strs_view(users@),
                any_active == exists|j: int| 0 <= j < u && spec_active(bins, #[trigger] users_v[j]),
                any_dusty == exists|j: int| 0 <= j < u && spec_dusty(bins, #[trigger] users_v[j]),
                strs_view(dusty_users@) =~= spec_dusty_users(users_v.take(u as int), bins),
            decreases nu - u,
        {
            proof {
                assert(users_v.take(u + 1).drop_last() =~= users_v.take(u as int));
                assert(users_v.take(u + 1).last() == users_v[u as int]);
            }
            match lookup_count(binaries, &users[u]) {
                Some(c) => {
                    if c > 0 {
                        proof {
                            assert(users_v[u as int] == users@[u as int]@);
                            assert(spec_active(bins, users_v[u as int]));
                            assert(!spec_dusty(bins, users_v[u as int]));
                        }
                        any_active = true;
                    } else if c == 0 {
                        proof {
                            assert(users_v[u as int] == users@[u as int]@);
                            assert(spec_dusty(bins, users_v[u as int]));
                            assert(!spec_active(bins, users_v[u as int]));
                        }
                        any_dusty = true;
                        let copy = users[u].clone();
                        dusty_users.push(copy);
                        proof {
                            assert(strs_view(dusty_users@) =~= spec_dusty_users(
                                users_v.take(u + 1),
                                bins,
                            ));
                        }
                    } else {
                        proof {
                            assert(users_v[u as int] == users@[u as int]@);
                            assert(!spec_active(bins, users_v[u as int]));
                            assert(!spec_dusty(bins, users_v[u as int]));
                        }
                    }
                },
                None => {
                    proof {
                        assert(users_v[u as int] == users@[u as int]@);
                        lemma_key_index(bin_keys(bins), users_v[u as int]);
                        assert(!spec_active(bins, users_v[u as int]));
                        assert(!spec_dusty(bins, users_v[u as int]));
                    }
                },
            }
            u = u + 1;
        }
        proof {
            assert(users_v.take(nu as int) =~= users_v);
        }

        if nu > 0 && !any_active && any_dusty {
            proof {
                assert(spec_is_orphan(lp, dv, bins, pr)) by {
                    assert(users_v == spec_users_acc(lp, dv, pr));
                    assert forall|j: int| 0 <= j < users_v.len() implies !spec_active(
                        bins,
                        #[trigger] users_v[j],
                    ) by {}
                }
            }
            let entry = OrphanPackage {
                manager: managers[k].clone(),
                package_name: packages[k].clone(),
                size_bytes: None,
                used_by_dusty: dusty_users,
            };
            out.push(entry);
            proof {
                assert(orphans_view(out@) =~= spec_orphans_from(pairs.take(k + 1), lp, dv, bins));
            }
        } else {
            proof {
                assert(!spec_is_orphan(lp, dv, bins, pr)) by {
                    if spec_is_orphan(lp, dv, bins, pr) {
                        assert(users_v == spec_users_acc(lp, dv, pr));
                        assert(users_v.len() > 0);
                        let j = choose|j: int|
                            0 <= j < users_v.len() && spec_dusty(bins, users_v[j]);
                        assert(any_dusty);
                        if any_active {
                            let a = choose|a: int|
                                0 <= a < users_v.len() && spec_active(bins, users_v[a]);
                        }
                    }
                }
            }
        }
        k = k + 1;
    }
    proof {
        assert(pairs.take(np as int) =~= pairs);
    }
    out
}

// ---------------------------------------------------------------------------
// Orphan laws
// ---------------------------------------------------------------------------

/// An orphan entry for this (manager, package) pair is in the list.
pub open spec fn orphan_has_pair(orphans: Seq<OrphanV>, pr: PairV) -> bool {
    exists|i: int|
        0 <= i < orphans.len() && orphans[i].manager == pr.manager && orphans[i].package
            == pr.package
}

proof fn lemma_orphans_from_membership(
    pairs: Seq<PairV>,
    libpkgs: Seq<LibPkgV>,
    deps: Seq<DepV>,
    bins: Seq<RecV>,
    pr: PairV,
)
    ensures
        orphan_has_pair(spec_orphans_from(pairs, libpkgs, deps, bins), pr) <==> (pair_in(pairs, pr)
            && spec_is_orphan(libpkgs, deps, bins, pr)),
    decreases pairs.len(),
{
    if pairs.len() > 0 {
        lemma_orphans_from_membership(pairs.drop_last(), libpkgs, deps, bins, pr);
        let res = spec_orphans_from(pairs, libpkgs, deps, bins);
        let prev = spec_orphans_from(pairs.drop_last(), libpkgs, deps, bins);
        let lastp = pairs.last();
        if orphan_has_pair(res, pr) {
            let i = choose|i: int|
                0 <= i < res.len() && res[i].manager == pr.manager && res[i].package == pr.package;
            if spec_is_orphan(libpkgs, deps, bins, lastp) && i == res.len() - 1 {
                if lastp == pr {
                    assert(pairs[pairs.len() - 1] == pr);
                } else {
                    assert(res[i].manager == lastp.manager && res[i].package == lastp.package);
                    assert(lastp =~= pr);
                }
            } else {
                assert(res[i] == prev[i]);
                assert(orphan_has_pair(prev, pr));
                let j = choose|j: int| 0 <= j < pairs.drop_last().len() && pairs.drop_last()[j] == pr;
                assert(pairs[j] == pr);
            }
        }
        if pair_in(pairs, pr) && spec_is_orphan(libpkgs, deps, bins, pr) {
            let j = choose|j: int| 0 <= j < pairs.len() && pairs[j] == pr;
            if j == pairs.len() - 1 && !pair_in(pairs.drop_last(), pr) {
                assert(res[res.len() - 1].manager == pr.manager);
                assert(orphan_has_pair(res, pr));
            } else {
                if j < pairs.len() - 1 {
                    assert(pairs.drop_last()[j] == pr);
                }
                assert(pair_in(pairs.drop_last(), pr));
                assert(orphan_has_pair(prev, pr));
                let i = choose|i: int|
                    0 <= i < prev.len() && prev[i].manager == pr.manager && prev[i].package
                        == pr.package;
                assert(res[i] == prev[i]);
                assert(orphan_has_pair(res, pr));
            }
        }
    }
}

/// Law: orphan membership. A package pair appears in the orphan list
/// exactly when the cache knows it, its user set is non-empty, no user is
/// active, and at least one user is dusty.
pub proof fn lemma_orphan_membership(
    libpkgs: Seq<LibPkgV>,
    deps: Seq<DepV>,
    bins: Seq<RecV>,
    pr: PairV,
)
    ensures
        orphan_has_pair(spec_orphans(libpkgs, deps, bins), pr) <==> (pair_in(
            spec_pkg_pairs(libpkgs),
            pr,
        ) && spec_is_orphan(libpkgs, deps, bins, pr)),
{
    lemma_orphans_from_membership(spec_pkg_pairs(libpkgs), libpkgs, deps, bins, pr);
}

/// Law: making any user of a package active removes the package from the
/// next orphan computation.
pub proof fn lemma_orphan_flip(
    libpkgs: Seq<LibPkgV>,
    deps: Seq<DepV>,
    bins: Seq<RecV>,
    pr: PairV,
    u: Seq<char>,
)
    requires
        seq_has(spec_users_acc(libpkgs, deps, pr), u),
        spec_active(bins, u),
    ensures
        !orphan_has_pair(spec_orphans(libpkgs, deps, bins), pr),
{
    lemma_orphan_membership(libpkgs, deps, bins, pr);
    let users = spec_users_acc(libpkgs, deps, pr);
    let i = choose|i: int| 0 <= i < users.len() && users[i] == u;
    assert(!spec_is_orphan(libpkgs, deps, bins, pr));
}

// ---------------------------------------------------------------------------
// Report assembly: sizes, ordering, totals
// ---------------------------------------------------------------------------

/// Mathematical model of a size entry.
#[verifier::ext_equal]
pub ghost struct PkgSizeV {
    pub manager: Seq<char>,
    pub package: Seq<char>,
    pub size: Option<int>,
}

impl View for PackageSize {
    type V = PkgSizeV;

    open spec fn view(&self) -> PkgSizeV {
        PkgSizeV {
            manager: self.manager@,
            package: self.package_name@,
            size: opt_u64_view(self.size_bytes),
        }
    }
}

pub open spec fn sizes_view(s: Seq<PackageSize>) -> Seq<PkgSizeV> {
    s.map_values(|x: PackageSize| x@)
}

/// Index of the first size entry for the pair, or `-1`.
pub open spec fn psize_index(sizes: Seq<PkgSizeV>, pr: PairV) -> int
    decreases sizes.len(),
{
    if sizes.len() == 0 {
        -1
    } else if sizes[0].manager == pr.manager && sizes[0].package == pr.package {
        0
    } else {
        let r = psize_index(sizes.drop_first(), pr);
        if r < 0 {
            -1
        } else {
            r + 1
        }
    }
}

pub proof fn lemma_psize_index(sizes: Seq<PkgSizeV>, pr: PairV)
    ensures
        -1 <= psize_index(sizes, pr) < sizes.len(),
        psize_index(sizes, pr) >= 0 ==> (sizes[psize_index(sizes, pr)].manager == pr.manager
            && sizes[psize_index(sizes, pr)].package == pr.package) && forall|j: int|
            0 <= j < psize_index(sizes, pr) ==> !(sizes[j].manager == pr.manager
                && sizes[j].package == pr.package),
        psize_index(sizes, pr) < 0 ==> forall|j: int|
            0 <= j < sizes.len() ==> !(sizes[j].manager == pr.manager && sizes[j].package
                == pr.package),
    decreases sizes.len(),
{
    if sizes.len() > 0 && !(sizes[0].manager == pr.manager && sizes[0].package == pr.package) {
        let rest = sizes.drop_first();
        lemma_psize_index(rest, pr);
        let r = psize_index(rest, pr);
        if r >= 0 {
            assert(sizes[r + 1] == rest[r]);
            assert forall|j: int|
                0 <= j < r + 1 implies !(sizes[j].manager == pr.manager && sizes[j].package
                == pr.package) by {
                if j > 0 {
                    assert(rest[j - 1] == sizes[j]);
                }
            }
        } else {
            assert forall|j: int|
                0 <= j < sizes.len() implies !(sizes[j].manager == pr.manager && sizes[j].package
                == pr.package) by {
                if j > 0 {
                    assert(rest[j - 1] == sizes[j]);
                }
            }
        }
    }
}

/// The known size for the pair, if the size list has one.
pub open spec fn spec_size_lookup(sizes: Seq<PkgSizeV>, pr: PairV) -> Option<int> {
    let i = psize_index(sizes, pr);
    if i < 0 {
        None
    } else {
        sizes[i].size
    }
}

/// An orphan entry with its size looked up.
pub open spec fn spec_with_size(o: OrphanV, sizes: Seq<PkgSizeV>) -> OrphanV {
    OrphanV {
        size: spec_size_lookup(sizes, PairV { manager: o.manager, package: o.package }),
        ..o
    }
}

pub open spec fn spec_attach_sizes(orphans: Seq<OrphanV>, sizes: Seq<PkgSizeV>) -> Seq<OrphanV> {
    orphans.map_values(|o: OrphanV| spec_with_size(o, sizes))
}

/// The sort key: the known size, unknown sizes counting as zero.
pub open spec fn spec_size_key(o: OrphanV) -> int {
    match o.size {
        Some(x) => x,
        None => 0,
    }
}

/// Sorted by known installed size, largest first.
pub open spec fn spec_sorted_desc(s: Seq<OrphanV>) -> bool {
    forall|i: int, j: int| 0 <= i < j < s.len() ==> spec_size_key(#[trigger] s[i])
        >= spec_size_key(#[trigger] s[j])
}

/// The sum of the known sizes.
pub open spec fn spec_total_size(s: Seq<OrphanV>) -> int
    decreases s.len(),
{
    if s.len() == 0 {
        0
    } else {
        spec_total_size(s.drop_last()) + match s.last().size {
            Some(x) => x,
            None => 0,
        }
    }
}

/// The sum of known sizes never shrinks as entries are added.
proof fn lemma_total_size_nonneg(s: Seq<OrphanV>)
    requires
        forall|i: int| 0 <= i < s.len() ==> match (#[trigger] s[i]).size {
            Some(x) => x >= 0,
            None => true,
        },
    ensures
        spec_total_size(s) >= 0,
    decreases s.len(),
{
    if s.len() > 0 {
        assert forall|i: int| 0 <= i < s.drop_last().len() implies match (#[trigger] s.drop_last()[i]).size {
            Some(x) => x >= 0,
            None => true,
        } by {
            assert(s.drop_last()[i] == s[i]);
        }
        lemma_total_size_nonneg(s.drop_last());
    }
}

/// The size for one orphan entry, if the size list has one.
fn size_for(sizes: &Vec<PackageSize>, manager: &String, package: &String) -> (r: Option<u64>)
    ensures
        opt_u64_view(r) == spec_size_lookup(
            sizes_view(sizes@),
            PairV { manager: manager@, package: package@ },
        ),
{
    let ghost pr = PairV { manager: manager@, package: package@ };
    let ghost sv = sizes_view(sizes@);
    proof {
        lemma_psize_index(sv, pr);
    }
    let n = sizes.len();
    let mut i: usize = 0;
    while i < n
        invariant
            0 <= i <= n,
            n == sizes@.len(),
            forall|j: int| 0 <= j < i ==> !(sv[j].manager == pr.manager && sv[j].package
                == pr.package),
        decreases n - i,
    {
        if sizes[i].manager == *manager && sizes[i].package_name == *package {
            proof {
                assert(sv[i as int].manager == pr.manager && sv[i as int].package == pr.package);
            }
            return sizes[i].size_bytes;
        }
        proof {
            assert(!(sv[i as int].manager == pr.manager && sv[i as int].package == pr.package));
        }
        i = i + 1;
    }
    None
}

impl OrphanPackage {
    /// A field-for-field copy.
    fn duplicate(&self) -> (r: OrphanPackage)
        ensures
            r@ == self@,
    {
        let n = self.used_by_dusty.len();
        let mut users: Vec<String> = Vec::new();
        let mut i: usize = 0;
        while i < n
            invariant
                0 <= i <= n,
                n == self.used_by_dusty@.len(),
                strs_view(users@) =~= strs_view(self.used_by_dusty@).take(i as int),
            decreases n - i,
        {
            let copy = self.used_by_dusty[i].clone();
            users.push(copy);
            proof {
                assert(strs_view(users@) =~= strs_view(self.used_by_dusty@).take(i + 1));
            }
            i = i + 1;
        }
        proof {
            assert(strs_view(self.used_by_dusty@).take(n as int) =~= strs_view(
                self.used_by_dusty@,
            ));
        }
        OrphanPackage {
            manager: self.manager.clone(),
            package_name: self.package_name.clone(),
            size_bytes: self.size_bytes,
            used_by_dusty: users,
        }
    }
}

/// Sort the orphan entries by known installed size, largest first, keeping
/// exactly the same entries.
fn sort_orphans(input: Vec<OrphanPackage>) -> (r: Vec<OrphanPackage>)
    ensures
        spec_sorted_desc(orphans_view(r@)),
        orphans_view(r@).to_multiset() == orphans_view(input@).to_multiset(),
{
    broadcast use vstd::seq_lib::group_to_multiset_ensures;

    let ghost orig = orphans_view(input@);
    let mut rest = input;
    let mut out: Vec<OrphanPackage> = Vec::new();
    while rest.len() > 0
        invariant
            spec_sorted_desc(orphans_view(out@)),
            orphans_view(out@).to_multiset().add(orphans_view(rest@).to_multiset())
                =~= orig.to_multiset(),
            forall|i: int, j: int|
                0 <= i < out@.len() && 0 <= j < rest@.len() ==> spec_size_key(
                    #[trigger] orphans_view(out@)[i],
                ) >= spec_size_key(#[trigger] orphans_view(rest@)[j]),
        decreases rest@.len(),
    {
        // Find the largest remaining key.
        let n = rest.len();
        let mut best: usize = 0;
        let mut best_key: u64 = match rest[0].size_bytes {
            Some(x) => x,
            None => 0,
        };
        let mut i: usize = 1;
        while i < n
            invariant
                0 < n == rest@.len(),
                0 <= best < i <= n,
                best_key == spec_size_key(orphans_view(rest@)[best as int]),
                forall|j: int| 0 <= j < i ==> best_key >= spec_size_key(
                    #[trigger] orphans_view(rest@)[j],
                ),
            decreases n - i,
        {
            let key: u64 = match rest[i].size_bytes {
                Some(x) => x,
                None => 0,
            };
            if key > best_key {
                best = i;
                best_key = key;
            }
            i = i + 1;
        }
        let ghost rest_pre = orphans_view(rest@);
        let picked = rest.remove(best);
        proof {
            assert(orphans_view(rest@) =~= rest_pre.remove(best as int));
            assert(rest_pre.remove(best as int).to_multiset() =~= rest_pre.to_multiset().remove(
                rest_pre[best as int],
            ));
        }
        let ghost out_pre = orphans_view(out@);
        out.push(picked);
        proof {
            assert(orphans_view(out@) =~= out_pre.push(rest_pre[best as int]));
            assert(orphans_view(out@).to_multiset() =~= out_pre.to_multiset().insert(
                rest_pre[best as int],
            ));
            assert(orphans_view(out@).to_multiset().add(orphans_view(rest@).to_multiset())
                =~= orig.to_multiset());
            assert forall|i2: int, j2: int|
                0 <= i2 < j2 < orphans_view(out@).len() implies spec_size_key(
                #[trigger] orphans_view(out@)[i2],
            ) >= spec_size_key(#[trigger] orphans_view(out@)[j2]) by {
                if j2 < orphans_view(out@).len() - 1 {
                    assert(orphans_view(out@)[i2] == out_pre[i2]);
                    assert(orphans_view(out@)[j2] == out_pre[j2]);
                }
            }
            assert forall|i2: int, j2: int|
                0 <= i2 < orphans_view(out@).len() && 0 <= j2 < orphans_view(rest@).len() implies
                spec_size_key(#[trigger] orphans_view(out@)[i2]) >= spec_size_key(
                #[trigger] orphans_view(rest@)[j2],
            ) by {
                if j2 < best {
                    assert(orphans_view(rest@)[j2] == rest_pre[j2]);
                } else {
                    assert(orphans_view(rest@)[j2] == rest_pre[j2 + 1]);
                }
                if i2 < orphans_view(out@).len() - 1 {
                    assert(orphans_view(out@)[i2] == out_pre[i2]);
                }
            }
        }
    }
    proof {
        assert(orphans_view(rest@).to_multiset() =~= Multiset::<OrphanV>::empty());
        assert(orphans_view(out@).to_multiset() =~= orig.to_multiset());
    }
    out
}

/// Assemble the orphan report from the candidates: look up each orphan's
/// known size, order by size descending, and total the known sizes
/// (saturating at the `u64` ceiling).
pub fn build_report(
    candidates: Vec<OrphanPackage>,
    sizes: &Vec<PackageSize>,
    binaries_analyzed: usize,
    total_lib_packages: usize,
) -> (r: DepsReport)
    ensures
        spec_sorted_desc(orphans_view(r.orphan_packages@)),
        orphans_view(r.orphan_packages@).to_multiset() == spec_attach_sizes(
            orphans_view(candidates@),
            sizes_view(sizes@),
        ).to_multiset(),
        r.total_freeable_bytes == ({
            let t = spec_total_size(spec_attach_sizes(orphans_view(candidates@), sizes_view(sizes@)));
            if t <= u64::MAX {
                t
            } else {
                u64::MAX as int
            }
        }),
        r.binaries_analyzed == binaries_analyzed,
        r.total_lib_packages == total_lib_packages,
{
    let ghost cand_v = orphans_view(candidates@);
    let ghost sv = sizes_view(sizes@);
    let ghost target = spec_attach_sizes(cand_v, sv);

    let n = candidates.len();
    let mut with_sizes: Vec<OrphanPackage> = Vec::new();
    let mut total: u64 = 0;
    let mut i: usize = 0;
    while i < n
        invariant
            0 <= i <= n,
            n == candidates@.len(),
            cand_v == orphans_view(candidates@),
            target == spec_attach_sizes(cand_v, sv),
            orphans_view(with_sizes@) =~= target.take(i as int),
            total == ({
                let t = spec_total_size(target.take(i as int));
                if t <= u64::MAX {
                    t
                } else {
                    u64::MAX as int
                }
            }),
        decreases n - i,
    {
        proof {
            assert(target.take(i + 1).drop_last() =~= target.take(i as int));
            assert(target.take(i + 1).last() == target[i as int]);
            assert(target[i as int] == spec_with_size(cand_v[i as int], sv));
            assert forall|a: int| 0 <= a < target.take(i as int).len() implies match (#[trigger] target.take(
                i as int,
            )[a]).size {
                Some(x) => x >= 0,
                None => true,
            } by {
                assert(target.take(i as int)[a] == spec_with_size(cand_v[a], sv));
                lemma_psize_index(sv, PairV { manager: cand_v[a].manager, package: cand_v[a].package });
                let pi = psize_index(sv, PairV { manager: cand_v[a].manager, package: cand_v[a].package });
                if pi >= 0 {
                    assert(sv[pi] == sizes@[pi]@);
                }
            }
            lemma_total_size_nonneg(target.take(i as int));
        }
        let entry = candidates[i].duplicate();
        let size = size_for(sizes, &entry.manager, &entry.package_name);
        let filled = OrphanPackage {
            manager: entry.manager,
            package_name: entry.package_name,
            size_bytes: size,
            used_by_dusty: entry.used_by_dusty,
        };
        match size {
            Some(x) => {
                total = total.saturating_add(x);
            },
            None => {},
        }
        with_sizes.push(filled);
        proof {
            assert(orphans_view(with_sizes@) =~= target.take(i + 1));
        }
        i = i + 1;
    }
    proof {
        assert(target.take(n as int) =~= target);
    }
    let sorted = sort_orphans(with_sizes);
    DepsReport {
        orphan_packages: sorted,
        total_freeable_bytes: total,
        binaries_analyzed: binaries_analyzed,
        total_lib_packages: total_lib_packages,
    }
}

/// Mathematical model of a resolved library row.
#[verifier::ext_equal]
pub ghost struct ResolvedLibV {
    pub lib: Seq<char>,
    pub package: Option<Seq<char>>,
    pub manager: Option<Seq<char>>,
}

impl View for ResolvedLib {
    type V = ResolvedLibV;

    open spec fn view(&self) -> ResolvedLibV {
        ResolvedLibV {
            lib: self.lib_path@,
            package: match &self.package_name {
                Some(s) => Some(s@),
                None => None,
            },
            manager: match &self.manager {
                Some(s) => Some(s@),
                None => None,
            },
        }
    }
}

/// One library joined with the package cache: the first cached resolution
/// for it, if any.
pub open spec fn spec_resolve_lib(lib: Seq<char>, libpkgs: Seq<LibPkgV>) -> ResolvedLibV {
    let i = crate::ledger::key_index(crate::ledger::libpkg_keys(libpkgs), lib);
    if i < 0 {
        ResolvedLibV { lib: lib, package: None, manager: None }
    } else {
        ResolvedLibV { lib: lib, package: Some(libpkgs[i].package), manager: Some(libpkgs[i].manager) }
    }
}

/// Index of the cached resolution for `lib`, tied to the model's
/// `key_index`.
fn find_libpkg(lib_packages: &Vec<LibPackageInfo>, lib: &String) -> (r: Option<usize>)
    ensures
        ({
            let i = key_index(crate::ledger::libpkg_keys(libpkgs_view(lib_packages@)), lib@);
            match r {
                Some(k) => k == i && k < lib_packages@.len(),
                None => i < 0,
            }
        }),
{
    let ghost lp = libpkgs_view(lib_packages@);
    proof {
        lemma_key_index(crate::ledger::libpkg_keys(lp), lib@);
    }
    let n = lib_packages.len();
    let mut k: usize = 0;
    while k < n
        invariant
            0 <= k <= n,
            n == lib_packages@.len(),
            lp == libpkgs_view(lib_packages@),
            forall|j: int| 0 <= j < k ==> crate::ledger::libpkg_keys(lp)[j] != lib@,
        decreases n - k,
    {
        if lib_packages[k].lib_path == *lib {
            assert(crate::ledger::libpkg_keys(lp)[k as int] == lib@);
            return Some(k);
        }
        assert(crate::ledger::libpkg_keys(lp)[k as int] != lib@);
        k = k + 1;
    }
    None
}

/// Join a binary's library list with the package cache.
pub fn resolve_libs(
    binary_path: &str,
    lib_paths: &Vec<String>,
    lib_packages: &Vec<LibPackageInfo>,
) -> (r: SingleBinaryDeps)
    ensures
        r.binary_path@ == binary_path@,
        r.libs@.map_values(|l: ResolvedLib| l@) == strs_view(lib_paths@).map_values(
            |l: Seq<char>| spec_resolve_lib(l, libpkgs_view(lib_packages@)),
        ),
{
    let ghost lp = libpkgs_view(lib_packages@);
    let ghost target = strs_view(lib_paths@).map_values(
        |l: Seq<char>| spec_resolve_lib(l, libpkgs_view(lib_packages@)),
    );
    let n = lib_paths.len();
    let mut libs: Vec<ResolvedLib> = Vec::new();
    let mut i: usize = 0;
    while i < n
        invariant
            0 <= i <= n,
            n == lib_paths@.len(),
            lp == libpkgs_view(lib_packages@),
            target == strs_view(lib_paths@).map_values(
                |l: Seq<char>| spec_resolve_lib(l, libpkgs_view(lib_packages@)),
            ),
            libs@.map_values(|l: ResolvedLib| l@) =~= target.take(i as int),
        decreases n - i,
    {
        let entry = match find_libpkg(lib_packages, &lib_paths[i]) {
            Some(k2) => ResolvedLib {
                lib_path: lib_paths[i].clone(),
                package_name: Some(lib_packages[k2].package_name.clone()),
                manager: Some(lib_packages[k2].manager.clone()),
            },
            None => ResolvedLib {
                lib_path: lib_paths[i].clone(),
                package_name: None,
                manager: None,
            },
        };
        libs.push(entry);
        proof {
            lemma_key_index(crate::ledger::libpkg_keys(lp), lib_paths@[i as int]@);
            assert(target[i as int] == spec_resolve_lib(lib_paths@[i as int]@, lp));
            assert(libs@.map_values(|l: ResolvedLib| l@) =~= target.take(i + 1));
        }
        i = i + 1;
    }
    proof {
        assert(target.take(n as int) =~= target);
    }
    SingleBinaryDeps { binary_path: binary_path.to_owned(), libs: libs }
}

} // verus!
