//! The usage ledger: the single source of truth for binary usage records,
//! path aliases, dependency edges and cached package resolutions.
//!
//! The `Ledger` value models the persistent store's state; every mutation is
//! specified as a functional transition on the mathematical view
//! (`LedgerV`), so properties of operation sequences (monotonic counts,
//! alias transparency, prune exactness) can be stated and proved over the
//! transitions themselves.

use vstd::prelude::*;

use crate::strutil;

verus! {

/// One tracked executable: its path, how often it has been invoked, when it
/// was first and last seen running, and its provenance.
pub struct BinaryRecord {
    pub path: String,
    pub count: i64,
    pub first_seen: Option<i64>,
    pub last_seen: Option<i64>,
    pub source: Option<String>,
    pub package_name: Option<String>,
}

/// A resolved path under which the audit subsystem reports executions whose
/// counts belong to another (canonical, usually symlink) path.
pub struct PathAlias {
    pub alias_path: String,
    pub canonical_path: String,
}

/// One direct dynamic-library dependency edge.
pub struct DepEdge {
    pub binary_path: String,
    pub lib_path: String,
}

/// A library file resolved to its owning package.
pub struct LibPackageInfo {
    pub lib_path: String,
    pub manager: String,
    pub package_name: String,
}

/// When a binary's dependencies were last analyzed, and the binary's
/// modification time at that analysis.
pub struct DepsMeta {
    pub binary_path: String,
    pub analyzed_at: i64,
    pub binary_mtime: Option<i64>,
}

/// Mathematical model of a binary record.
#[verifier::ext_equal]
pub ghost struct RecV {
    pub path: Seq<char>,
    pub count: int,
    pub first_seen: Option<int>,
    pub last_seen: Option<int>,
    pub source: Option<Seq<char>>,
    pub package_name: Option<Seq<char>>,
}

/// Mathematical model of an alias entry.
#[verifier::ext_equal]
pub ghost struct AliasV {
    pub alias: Seq<char>,
    pub canonical: Seq<char>,
}

/// Mathematical model of a dependency edge.
#[verifier::ext_equal]
pub ghost struct DepV {
    pub binary: Seq<char>,
    pub lib: Seq<char>,
}

/// Mathematical model of a cached library-package resolution.
#[verifier::ext_equal]
pub ghost struct LibPkgV {
    pub lib: Seq<char>,
    pub manager: Seq<char>,
    pub package: Seq<char>,
}

/// Mathematical model of a dependency-analysis cache entry.
#[verifier::ext_equal]
pub ghost struct MetaV {
    pub binary: Seq<char>,
    pub analyzed_at: int,
    pub mtime: Option<int>,
}

/// Mathematical model of the whole store.
#[verifier::ext_equal]
pub ghost struct LedgerV {
    pub binaries: Seq<RecV>,
    pub aliases: Seq<AliasV>,
    pub deps: Seq<DepV>,
    pub lib_packages: Seq<LibPkgV>,
    pub deps_meta: Seq<MetaV>,
    pub tracking_since: Option<int>,
}

pub open spec fn opt_int(o: Option<i64>) -> Option<int> {
    match o {
        Some(x) => Some(x as int),
        None => None,
    }
}

pub open spec fn opt_seq(o: &Option<String>) -> Option<Seq<char>> {
    match o {
        Some(s) => Some(s@),
        None => None,
    }
}

impl View for BinaryRecord {
    type V = RecV;

    open spec fn view(&self) -> RecV {
        RecV {
            path: self.path@,
            count: self.count as int,
            first_seen: opt_int(self.first_seen),
            last_seen: opt_int(self.last_seen),
            source: opt_seq(&self.source),
            package_name: opt_seq(&self.package_name),
        }
    }
}

impl View for PathAlias {
    type V = AliasV;

    open spec fn view(&self) -> AliasV {
        AliasV { alias: self.alias_path@, canonical: self.canonical_path@ }
    }
}

impl View for DepEdge {
    type V = DepV;

    open spec fn view(&self) -> DepV {
        DepV { binary: self.binary_path@, lib: self.lib_path@ }
    }
}

impl View for LibPackageInfo {
    type V = LibPkgV;

    open spec fn view(&self) -> LibPkgV {
        LibPkgV { lib: self.lib_path@, manager: self.manager@, package: self.package_name@ }
    }
}

impl View for DepsMeta {
    type V = MetaV;

    open spec fn view(&self) -> MetaV {
        MetaV {
            binary: self.binary_path@,
            analyzed_at: self.analyzed_at as int,
            mtime: opt_int(self.binary_mtime),
        }
    }
}

pub open spec fn recs_view(s: Seq<BinaryRecord>) -> Seq<RecV> {
    s.map_values(|r: BinaryRecord| r@)
}

pub open spec fn aliases_view(s: Seq<PathAlias>) -> Seq<AliasV> {
    s.map_values(|a: PathAlias| a@)
}

pub open spec fn deps_view(s: Seq<DepEdge>) -> Seq<DepV> {
    s.map_values(|d: DepEdge| d@)
}

pub open spec fn libpkgs_view(s: Seq<LibPackageInfo>) -> Seq<LibPkgV> {
    s.map_values(|p: LibPackageInfo| p@)
}

pub open spec fn metas_view(s: Seq<DepsMeta>) -> Seq<MetaV> {
    s.map_values(|m: DepsMeta| m@)
}

/// Index of the first occurrence of `p` among `keys`, or `-1`.
pub open spec fn key_index(keys: Seq<Seq<char>>, p: Seq<char>) -> int
    decreases keys.len(),
{
    if keys.len() == 0 {
        -1
    } else if keys[0] == p {
        0
    } else {
        let r = key_index(keys.drop_first(), p);
        if r < 0 {
            -1
        } else {
            r + 1
        }
    }
}

/// `key_index` finds the first occurrence: a valid index of `p` with no
/// earlier occurrence, or `-1` when `p` does not occur at all.
pub proof fn lemma_key_index(keys: Seq<Seq<char>>, p: Seq<char>)
    ensures
        -1 <= key_index(keys, p) < keys.len(),
        key_index(keys, p) >= 0 ==> keys[key_index(keys, p)] == p && forall|j: int|
            0 <= j < key_index(keys, p) ==> keys[j] != p,
        key_index(keys, p) < 0 ==> forall|j: int| 0 <= j < keys.len() ==> keys[j] != p,
    decreases keys.len(),
{
    if keys.len() > 0 && keys[0] != p {
        let rest = keys.drop_first();
        lemma_key_index(rest, p);
        let r = key_index(rest, p);
        if r >= 0 {
            assert(keys[r + 1] == rest[r]);
            assert forall|j: int| 0 <= j < r + 1 implies keys[j] != p by {
                if j > 0 {
                    assert(rest[j - 1] == keys[j]);
                }
            }
        } else {
            assert forall|j: int| 0 <= j < keys.len() implies keys[j] != p by {
                if j > 0 {
                    assert(rest[j - 1] == keys[j]);
                }
            }
        }
    }
}

pub open spec fn bin_keys(s: Seq<RecV>) -> Seq<Seq<char>> {
    s.map_values(|r: RecV| r.path)
}

pub open spec fn alias_keys(s: Seq<AliasV>) -> Seq<Seq<char>> {
    s.map_values(|a: AliasV| a.alias)
}

pub open spec fn libpkg_keys(s: Seq<LibPkgV>) -> Seq<Seq<char>> {
    s.map_values(|p: LibPkgV| p.lib)
}

pub open spec fn meta_keys(s: Seq<MetaV>) -> Seq<Seq<char>> {
    s.map_values(|m: MetaV| m.binary)
}

pub open spec fn keys_unique(keys: Seq<Seq<char>>) -> bool {
    forall|i: int, j: int| 0 <= i < j < keys.len() ==> keys[i] != keys[j]
}

/// Structural invariant of one record: the count is a non-negative `i64`
/// value, a never-executed record has no timestamps, and an executed one has
/// a last-seen time.
pub open spec fn rec_wf(r: RecV) -> bool {
    &&& 0 <= r.count <= i64::MAX
    &&& (r.count == 0 <==> r.first_seen is None && r.last_seen is None)
    &&& (r.count > 0 ==> r.last_seen is Some)
    &&& match r.first_seen {
        Some(t) => i64::MIN <= t <= i64::MAX,
        None => true,
    }
    &&& match r.last_seen {
        Some(t) => i64::MIN <= t <= i64::MAX,
        None => true,
    }
}

/// A record's timestamps are ordered: it was not last seen before it was
/// first seen.
pub open spec fn rec_ordered(r: RecV) -> bool {
    match (r.first_seen, r.last_seen) {
        (Some(f), Some(l)) => f <= l,
        _ => true,
    }
}

/// Every record's timestamps are ordered.
pub open spec fn time_ordered(s: Seq<RecV>) -> bool {
    forall|i: int| 0 <= i < s.len() ==> rec_ordered(#[trigger] s[i])
}

pub open spec fn opt_at_most(o: Option<int>, t: int) -> bool {
    match o {
        Some(x) => x <= t,
        None => true,
    }
}

/// No record carries a timestamp later than `t`.
pub open spec fn times_at_most(s: Seq<RecV>, t: int) -> bool {
    forall|i: int| 0 <= i < s.len() ==> opt_at_most(#[trigger] s[i].first_seen, t)
        && opt_at_most(s[i].last_seen, t)
}

/// Well-formedness of the whole store: each table is keyed uniquely, every
/// record satisfies its structural invariant, and the record table is small
/// enough that its counts fit the count aggregates.
pub open spec fn ledger_wf(v: LedgerV) -> bool {
    &&& keys_unique(bin_keys(v.binaries))
    &&& forall|i: int| 0 <= i < v.binaries.len() ==> rec_wf(#[trigger] v.binaries[i])
    &&& keys_unique(alias_keys(v.aliases))
    &&& keys_unique(libpkg_keys(v.lib_packages))
    &&& keys_unique(meta_keys(v.deps_meta))
    &&& forall|i: int, j: int| 0 <= i < j < v.deps.len() ==> v.deps[i] != v.deps[j]
    &&& v.binaries.len() <= i64::MAX
}

/// The canonical path that `path`'s executions are credited to: the alias
/// table's target when a mapping exists, otherwise `path` itself.
pub open spec fn spec_resolve(aliases: Seq<AliasV>, path: Seq<char>) -> Seq<char> {
    let i = key_index(alias_keys(aliases), path);
    if i < 0 {
        path
    } else {
        aliases[i].canonical
    }
}

pub open spec fn spec_alias_lookup(aliases: Seq<AliasV>, path: Seq<char>) -> Option<Seq<char>> {
    let i = key_index(alias_keys(aliases), path);
    if i < 0 {
        None
    } else {
        Some(aliases[i].canonical)
    }
}

/// The record update applied by one recorded execution: the count grows by
/// one (saturating at the `i64` ceiling) and the last-seen time becomes
/// `now`; the first-seen time and provenance stay.
pub open spec fn spec_bump(r: RecV, now: int) -> RecV {
    RecV {
        count: if r.count < i64::MAX { r.count + 1 } else { r.count },
        last_seen: Some(now),
        ..r
    }
}

/// The record created when an execution is recorded for a path without a
/// record.
pub open spec fn spec_fresh_rec(path: Seq<char>, source: Option<Seq<char>>, now: int) -> RecV {
    RecV {
        path: path,
        count: 1,
        first_seen: Some(now),
        last_seen: Some(now),
        source: source,
        package_name: None,
    }
}

/// Transition for `record_exec`: resolve through the alias table, then
/// upsert the effective record.
pub open spec fn spec_record_exec(
    v: LedgerV,
    path: Seq<char>,
    source: Option<Seq<char>>,
    now: int,
) -> LedgerV {
    let eff = spec_resolve(v.aliases, path);
    let i = key_index(bin_keys(v.binaries), eff);
    if i < 0 {
        LedgerV { binaries: v.binaries.push(spec_fresh_rec(eff, source, now)), ..v }
    } else {
        LedgerV { binaries: v.binaries.update(i, spec_bump(v.binaries[i], now)), ..v }
    }
}

/// Transition for `register_binary`: create a never-executed record, or fill
/// in only the missing provenance fields of an existing one.
pub open spec fn spec_register_binary(
    v: LedgerV,
    path: Seq<char>,
    package_name: Seq<char>,
    source: Seq<char>,
) -> LedgerV {
    let i = key_index(bin_keys(v.binaries), path);
    if i < 0 {
        LedgerV {
            binaries: v.binaries.push(
                RecV {
                    path: path,
                    count: 0,
                    first_seen: None,
                    last_seen: None,
                    source: Some(source),
                    package_name: Some(package_name),
                },
            ),
            ..v
        }
    } else {
        let r = v.binaries[i];
        LedgerV {
            binaries: v.binaries.update(
                i,
                RecV {
                    source: if r.source is None {
                        Some(source)
                    } else {
                        r.source
                    },
                    package_name: if r.package_name is None {
                        Some(package_name)
                    } else {
                        r.package_name
                    },
                    ..r
                },
            ),
            ..v
        }
    }
}

/// Transition for `register_alias`: insert-or-replace by alias path.
pub open spec fn spec_register_alias(
    v: LedgerV,
    alias: Seq<char>,
    canonical: Seq<char>,
) -> LedgerV {
    let i = key_index(alias_keys(v.aliases), alias);
    let entry = AliasV { alias: alias, canonical: canonical };
    if i < 0 {
        LedgerV { aliases: v.aliases.push(entry), ..v }
    } else {
        LedgerV { aliases: v.aliases.update(i, entry), ..v }
    }
}

/// The persistent store's state, held in memory.
///
/// The caller that owns the store binds each mutation here to the matching
/// atomic statement on its own persistent medium.
pub struct Ledger {
    binaries: Vec<BinaryRecord>,
    aliases: Vec<PathAlias>,
    deps: Vec<DepEdge>,
    lib_packages: Vec<LibPackageInfo>,
    deps_meta: Vec<DepsMeta>,
    tracking_since: Option<i64>,
}

impl View for Ledger {
    type V = LedgerV;

    closed spec fn view(&self) -> LedgerV {
        LedgerV {
            binaries: recs_view(self.binaries@),
            aliases: aliases_view(self.aliases@),
            deps: deps_view(self.deps@),
            lib_packages: libpkgs_view(self.lib_packages@),
            deps_meta: metas_view(self.deps_meta@),
            tracking_since: opt_int(self.tracking_since),
        }
    }
}

impl Ledger {
    pub open spec fn wf(&self) -> bool {
        ledger_wf(self@)
    }

    /// An empty store.
    pub fn new() -> (r: Ledger)
        ensures
            r.wf(),
            r@.binaries =~= Seq::<RecV>::empty(),
            r@.aliases =~= Seq::<AliasV>::empty(),
            r@.deps =~= Seq::<DepV>::empty(),
            r@.lib_packages =~= Seq::<LibPkgV>::empty(),
            r@.deps_meta =~= Seq::<MetaV>::empty(),
            r@.tracking_since is None,
    {
        Ledger {
            binaries: Vec::new(),
            aliases: Vec::new(),
            deps: Vec::new(),
            lib_packages: Vec::new(),
            deps_meta: Vec::new(),
            tracking_since: None,
        }
    }

    /// Index of the record for `path`, tied to the `key_index` of the model.
    fn find_binary(&self, path: &String) -> (r: Option<usize>)
        ensures
            ({
                let i = key_index(bin_keys(self@.binaries), path@);
                match r {
                    Some(k) => k == i && k < self.binaries@.len(),
                    None => i < 0,
                }
            }),
    {
        proof {
            lemma_key_index(bin_keys(self@.binaries), path@);
        }
        let n = self.binaries.len();
        let mut k: usize = 0;
        while k < n
            invariant
                0 <= k <= n,
                n == self.binaries@.len(),
                forall|j: int| 0 <= j < k ==> bin_keys(self@.binaries)[j] != path@,
            decreases n - k,
        {
            if self.binaries[k].path == *path {
                assert(bin_keys(self@.binaries)[k as int] == path@);
                return Some(k);
            }
            assert(bin_keys(self@.binaries)[k as int] != path@);
            k = k + 1;
        }
        None
    }

    /// Index of the alias entry for `path`, tied to the model's `key_index`.
    fn find_alias(&self, path: &String) -> (r: Option<usize>)
        ensures
            ({
                let i = key_index(alias_keys(self@.aliases), path@);
                match r {
                    Some(k) => k == i && k < self.aliases@.len(),
                    None => i < 0,
                }
            }),
    {
        proof {
            lemma_key_index(alias_keys(self@.aliases), path@);
        }
        let n = self.aliases.len();
        let mut k: usize = 0;
        while k < n
            invariant
                0 <= k <= n,
                n == self.aliases@.len(),
                forall|j: int| 0 <= j < k ==> alias_keys(self@.aliases)[j] != path@,
            decreases n - k,
        {
            if self.aliases[k].alias_path == *path {
                assert(alias_keys(self@.aliases)[k as int] == path@);
                return Some(k);
            }
            assert(alias_keys(self@.aliases)[k as int] != path@);
            k = k + 1;
        }
        None
    }

    /// Look up the canonical path for a resolved (alias) path.
    pub fn resolve_alias(&self, alias_path: &str) -> (r: Option<String>)
        ensures
            opt_seq(&r) == spec_alias_lookup(self@.aliases, alias_path@),
    {
        let p = alias_path.to_owned();
        match self.find_alias(&p) {
            Some(k) => Some(self.aliases[k].canonical_path.clone()),
            None => None,
        }
    }

    /// Record one observed execution of `path`: resolve it through the alias
    /// table, then create the effective record with count 1 and both
    /// timestamps `now`, or bump its count and last-seen time.
    ///
    /// Never errors on an unknown path. Keeps every record's structural
    /// invariant, and keeps timestamp ordering whenever `now` is no earlier
    /// than the times already stored.
    pub fn record_exec(&mut self, path: &str, source: Option<&str>, now: i64)
        requires
            old(self).wf(),
            old(self)@.binaries.len() < i64::MAX,
        ensures
            final(self).wf(),
            final(self)@ == spec_record_exec(
                old(self)@,
                path@,
                match source {
                    Some(s) => Some(s@),
                    None => None,
                },
                now as int,
            ),
            time_ordered(old(self)@.binaries) && times_at_most(old(self)@.binaries, now as int)
                ==> time_ordered(final(self)@.binaries) && times_at_most(final(self)@.binaries, now as int),
    {
        let ghost pre = self@;
        let ghost src_v: Option<Seq<char>> = match source {
            Some(s) => Some(s@),
            None => None,
        };
        let p = path.to_owned();
        let effective: String = match self.find_alias(&p) {
            Some(k) => self.aliases[k].canonical_path.clone(),
            None => p,
        };
        assert(effective@ == spec_resolve(pre.aliases, path@));
        match self.find_binary(&effective) {
            Some(k) => {
                let ghost i = k as int;
                let rec = &mut self.binaries[k];
                if rec.count < i64::MAX {
                    rec.count = rec.count + 1;
                }
                rec.last_seen = Some(now);
                proof {
                    lemma_key_index(bin_keys(pre.binaries), spec_resolve(pre.aliases, path@));
                    let post = self@;
                    assert(post.binaries =~= pre.binaries.update(
                        i,
                        spec_bump(pre.binaries[i], now as int),
                    ));
                    assert(self@ =~= spec_record_exec(pre, path@, src_v, now as int));
                    assert(bin_keys(post.binaries) =~= bin_keys(pre.binaries));
                    assert forall|a: int| 0 <= a < post.binaries.len() implies rec_wf(
                        #[trigger] post.binaries[a],
                    ) by {
                        if a != i {
                            assert(post.binaries[a] == pre.binaries[a]);
                        }
                    }
                    if time_ordered(pre.binaries) && times_at_most(pre.binaries, now as int) {
                        assert forall|a: int| 0 <= a < post.binaries.len() implies rec_ordered(
                            #[trigger] post.binaries[a],
                        ) && opt_at_most(post.binaries[a].first_seen, now as int) && opt_at_most(
                            post.binaries[a].last_seen,
                            now as int,
                        ) by {
                            if a != i {
                                assert(post.binaries[a] == pre.binaries[a]);
                            } else {
                                assert(rec_ordered(pre.binaries[i]));
                                assert(opt_at_most(pre.binaries[i].first_seen, now as int));
                            }
                        }
                    }
                }
            },
            None => {
                let source_owned: Option<String> = match source {
                    Some(s) => Some(s.to_owned()),
                    None => None,
                };
                self.binaries.push(
                    BinaryRecord {
                        path: effective,
                        count: 1,
                        first_seen: Some(now),
                        last_seen: Some(now),
                        source: source_owned,
                        package_name: None,
                    },
                );
                proof {
                    let eff = spec_resolve(pre.aliases, path@);
                    let post = self@;
                    assert(post.binaries =~= pre.binaries.push(
                        spec_fresh_rec(eff, src_v, now as int),
                    ));
                    assert(self@ =~= spec_record_exec(pre, path@, src_v, now as int));
                    assert(bin_keys(post.binaries) =~= bin_keys(pre.binaries).push(eff));
                    lemma_key_index(bin_keys(pre.binaries), eff);
                    assert forall|a: int, b: int|
                        0 <= a < b < post.binaries.len() implies bin_keys(post.binaries)[a]
                        != bin_keys(post.binaries)[b] by {
                        if b == post.binaries.len() - 1 {
                            assert(bin_keys(pre.binaries)[a] != eff);
                        }
                    }
                    assert forall|a: int| 0 <= a < post.binaries.len() implies rec_wf(
                        #[trigger] post.binaries[a],
                    ) by {
                        if a < post.binaries.len() - 1 {
                            assert(post.binaries[a] == pre.binaries[a]);
                        }
                    }
                    if time_ordered(pre.binaries) && times_at_most(pre.binaries, now as int) {
                        assert forall|a: int| 0 <= a < post.binaries.len() implies rec_ordered(
                            #[trigger] post.binaries[a],
                        ) && opt_at_most(post.binaries[a].first_seen, now as int) && opt_at_most(
                            post.binaries[a].last_seen,
                            now as int,
                        ) by {
                            if a < post.binaries.len() - 1 {
                                assert(post.binaries[a] == pre.binaries[a]);
                            }
                        }
                    }
                }
            },
        }
    }

    /// Register a binary found by a filesystem scan: create its record with
    /// count 0 if absent, else fill in only a missing source or package
    /// name, never touching counts, timestamps or already-set provenance.
    pub fn register_binary(&mut self, path: &str, package_name: &str, source: &str) -> (r: bool)
        requires
            old(self).wf(),
            old(self)@.binaries.len() < i64::MAX,
        ensures
            final(self).wf(),
            final(self)@ == spec_register_binary(old(self)@, path@, package_name@, source@),
            time_ordered(old(self)@.binaries) ==> time_ordered(final(self)@.binaries),
            r == true,
    {
        let ghost pre = self@;
        let p = path.to_owned();
        match self.find_binary(&p) {
            Some(k) => {
                let ghost i = k as int;
                let rec = &mut self.binaries[k];
                if rec.source.is_none() {
                    rec.source = Some(source.to_owned());
                }
                if rec.package_name.is_none() {
                    rec.package_name = Some(package_name.to_owned());
                }
                proof {
                    lemma_key_index(bin_keys(pre.binaries), path@);
                    let post = self@;
                    assert(post =~= spec_register_binary(pre, path@, package_name@, source@));
                    assert(bin_keys(post.binaries) =~= bin_keys(pre.binaries));
                    assert forall|a: int| 0 <= a < post.binaries.len() implies rec_wf(
                        #[trigger] post.binaries[a],
                    ) by {
                        if a != i {
                            assert(post.binaries[a] == pre.binaries[a]);
                        }
                    }
                    if time_ordered(pre.binaries) {
                        assert forall|a: int| 0 <= a < post.binaries.len() implies rec_ordered(
                            #[trigger] post.binaries[a],
                        ) by {
                            if a != i {
                                assert(post.binaries[a] == pre.binaries[a]);
                            } else {
                                assert(rec_ordered(pre.binaries[i]));
                            }
                        }
                    }
                }
            },
            None => {
                self.binaries.push(
                    BinaryRecord {
                        path: p,
                        count: 0,
                        first_seen: None,
                        last_seen: None,
                        source: Some(source.to_owned()),
                        package_name: Some(package_name.to_owned()),
                    },
                );
                proof {
                    let post = self@;
                    assert(post =~= spec_register_binary(pre, path@, package_name@, source@));
                    assert(bin_keys(post.binaries) =~= bin_keys(pre.binaries).push(path@));
                    lemma_key_index(bin_keys(pre.binaries), path@);
                    assert forall|a: int, b: int|
                        0 <= a < b < post.binaries.len() implies bin_keys(post.binaries)[a]
                        != bin_keys(post.binaries)[b] by {
                        if b == post.binaries.len() - 1 {
                            assert(bin_keys(pre.binaries)[a] != path@);
                        }
                    }
                    assert forall|a: int| 0 <= a < post.binaries.len() implies rec_wf(
                        #[trigger] post.binaries[a],
                    ) by {
                        if a < post.binaries.len() - 1 {
                            assert(post.binaries[a] == pre.binaries[a]);
                        }
                    }
                    if time_ordered(pre.binaries) {
                        assert forall|a: int| 0 <= a < post.binaries.len() implies rec_ordered(
                            #[trigger] post.binaries[a],
                        ) by {
                            if a < post.binaries.len() - 1 {
                                assert(post.binaries[a] == pre.binaries[a]);
                            }
                        }
                    }
                }
            },
        }
        true
    }

    /// Insert-or-replace the alias mapping for `alias_path`.
    pub fn register_alias(&mut self, alias_path: &str, canonical_path: &str)
        requires
            old(self).wf(),
        ensures
            final(self).wf(),
            final(self)@ == spec_register_alias(old(self)@, alias_path@, canonical_path@),
    {
        let ghost pre = self@;
        let a = alias_path.to_owned();
        let entry = PathAlias { alias_path: a, canonical_path: canonical_path.to_owned() };
        let found = self.find_alias(&entry.alias_path);
        match found {
            Some(k) => {
                let ghost i = k as int;
                self.aliases.set(k, entry);
                proof {
                    lemma_key_index(alias_keys(pre.aliases), alias_path@);
                    let post = self@;
                    assert(post =~= spec_register_alias(pre, alias_path@, canonical_path@));
                    assert(alias_keys(post.aliases) =~= alias_keys(pre.aliases).update(i, alias_path@));
                    assert forall|a: int, b: int|
                        0 <= a < b < post.aliases.len() implies alias_keys(post.aliases)[a]
                        != alias_keys(post.aliases)[b] by {
                        if a == i || b == i {
                            assert(alias_keys(pre.aliases)[i] == alias_path@);
                        }
                    }
                }
            },
            None => {
                self.aliases.push(entry);
                proof {
                    let post = self@;
                    assert(post =~= spec_register_alias(pre, alias_path@, canonical_path@));
                    assert(alias_keys(post.aliases) =~= alias_keys(pre.aliases).push(alias_path@));
                    lemma_key_index(alias_keys(pre.aliases), alias_path@);
                    assert forall|a: int, b: int|
                        0 <= a < b < post.aliases.len() implies alias_keys(post.aliases)[a]
                        != alias_keys(post.aliases)[b] by {
                        if b == post.aliases.len() - 1 {
                            assert(alias_keys(pre.aliases)[a] != alias_path@);
                        }
                    }
                }
            },
        }
    }

    /// How many binaries are tracked.
    pub fn get_binary_count(&self) -> (r: i64)
        requires
            self.wf(),
        ensures
            r == self@.binaries.len(),
    {
        self.binaries.len() as i64
    }

    /// The timestamp at which tracking began, if ever set.
    pub fn get_tracking_since(&self) -> (r: Option<i64>)
        ensures
            opt_int(r) == self@.tracking_since,
    {
        self.tracking_since
    }

    /// Set the tracking-since timestamp.
    pub fn set_tracking_since(&mut self, timestamp: i64)
        requires
            old(self).wf(),
        ensures
            final(self).wf(),
            final(self)@ == (LedgerV { tracking_since: Some(timestamp as int), ..old(self)@ }),
    {
        self.tracking_since = Some(timestamp);
        assert(self@ =~= LedgerV { tracking_since: Some(timestamp as int), ..old(self)@ });
    }
}

// ---------------------------------------------------------------------------
// Membership helpers and filtering transitions
// ---------------------------------------------------------------------------

pub open spec fn strs_view(s: Seq<String>) -> Seq<Seq<char>> {
    s.map_values(|x: String| x@)
}

/// `p` occurs among `keys`.
pub open spec fn seq_has(keys: Seq<Seq<char>>, p: Seq<char>) -> bool {
    exists|i: int| 0 <= i < keys.len() && keys[i] == p
}

/// The store holds a record for `p`.
pub open spec fn has_record(s: Seq<RecV>, p: Seq<char>) -> bool {
    seq_has(bin_keys(s), p)
}

/// The records kept by a prune against the set `live` of paths still on
/// disk: exactly those whose path is in `live`, in order.
pub open spec fn spec_prune_recs(s: Seq<RecV>, live: Seq<Seq<char>>) -> Seq<RecV>
    decreases s.len(),
{
    if s.len() == 0 {
        s
    } else {
        let p = spec_prune_recs(s.drop_last(), live);
        if seq_has(live, s.last().path) {
            p.push(s.last())
        } else {
            p
        }
    }
}

/// An alias entry survives a prune unless its canonical target is a record
/// path that is being removed.
pub open spec fn spec_alias_survives(a: AliasV, bins: Seq<RecV>, live: Seq<Seq<char>>) -> bool {
    !(has_record(bins, a.canonical) && !seq_has(live, a.canonical))
}

pub open spec fn spec_prune_aliases(
    s: Seq<AliasV>,
    bins: Seq<RecV>,
    live: Seq<Seq<char>>,
) -> Seq<AliasV>
    decreases s.len(),
{
    if s.len() == 0 {
        s
    } else {
        let p = spec_prune_aliases(s.drop_last(), bins, live);
        if spec_alias_survives(s.last(), bins, live) {
            p.push(s.last())
        } else {
            p
        }
    }
}

/// Transition for `prune_missing`.
pub open spec fn spec_prune(v: LedgerV, live: Seq<Seq<char>>) -> LedgerV {
    LedgerV {
        binaries: spec_prune_recs(v.binaries, live),
        aliases: spec_prune_aliases(v.aliases, v.binaries, live),
        ..v
    }
}

/// Pruning removes exactly the records whose path is not in `live`, keeps
/// the survivors' contents, and never invents records.
pub proof fn lemma_prune_recs_exact(s: Seq<RecV>, live: Seq<Seq<char>>)
    ensures
        spec_prune_recs(s, live).len() <= s.len(),
        forall|i: int| 0 <= i < spec_prune_recs(s, live).len() ==> exists|j: int|
            0 <= j < s.len() && #[trigger] spec_prune_recs(s, live)[i] == s[j],
        forall|p: Seq<char>| #[trigger] has_record(spec_prune_recs(s, live), p) <==> (has_record(
            s,
            p,
        ) && seq_has(live, p)),
    decreases s.len(),
{
    if s.len() > 0 {
        lemma_prune_recs_exact(s.drop_last(), live);
        let res = spec_prune_recs(s, live);
        let prev = spec_prune_recs(s.drop_last(), live);
        let keep = seq_has(live, s.last().path);
        assert forall|p: Seq<char>| #[trigger] has_record(res, p) implies (has_record(s, p)
            && seq_has(live, p)) by {
            let i = choose|i: int| 0 <= i < bin_keys(res).len() && bin_keys(res)[i] == p;
            assert(res[i].path == p);
            if keep && i == res.len() - 1 {
                assert(res[i] == s.last());
                assert(bin_keys(s)[s.len() - 1] == p);
            } else {
                assert(res[i] == prev[i]);
                assert(bin_keys(prev)[i] == p);
                assert(has_record(prev, p));
                assert(has_record(s.drop_last(), p) && seq_has(live, p));
                let j = choose|j: int|
                    0 <= j < bin_keys(s.drop_last()).len() && bin_keys(s.drop_last())[j] == p;
                assert(s.drop_last()[j] == s[j]);
                assert(bin_keys(s)[j] == p);
            }
        }
        assert forall|p: Seq<char>| has_record(s, p) && seq_has(live, p) implies #[trigger]
            has_record(res, p) by {
            let j = choose|j: int| 0 <= j < bin_keys(s).len() && bin_keys(s)[j] == p;
            assert(s[j].path == p);
            if j == s.len() - 1 {
                assert(keep);
                assert(res[res.len() - 1] == s.last());
                assert(bin_keys(res)[res.len() - 1] == p);
            } else {
                assert(s.drop_last()[j] == s[j]);
                assert(bin_keys(s.drop_last())[j] == p);
                assert(has_record(s.drop_last(), p));
                assert(has_record(prev, p));
                let i = choose|i: int| 0 <= i < bin_keys(prev).len() && bin_keys(prev)[i] == p;
                assert(prev[i].path == p);
                if keep {
                    assert(res[i] == prev[i]);
                } else {
                    assert(res[i] == prev[i]);
                }
                assert(bin_keys(res)[i] == p);
            }
        }
    }
}

/// Pruning keeps the key-uniqueness and structural invariants of the record
/// table.
pub proof fn lemma_prune_recs_wf(s: Seq<RecV>, live: Seq<Seq<char>>)
    requires
        keys_unique(bin_keys(s)),
    ensures
        keys_unique(bin_keys(spec_prune_recs(s, live))),
    decreases s.len(),
{
    if s.len() > 0 {
        assert forall|i: int, j: int|
            0 <= i < j < bin_keys(s.drop_last()).len() implies bin_keys(s.drop_last())[i]
            != bin_keys(s.drop_last())[j] by {
            assert(bin_keys(s)[i] == bin_keys(s.drop_last())[i]);
            assert(bin_keys(s)[j] == bin_keys(s.drop_last())[j]);
        }
        lemma_prune_recs_wf(s.drop_last(), live);
        lemma_prune_recs_exact(s.drop_last(), live);
        let res = spec_prune_recs(s, live);
        let prev = spec_prune_recs(s.drop_last(), live);
        if seq_has(live, s.last().path) {
            assert forall|i: int, j: int|
                0 <= i < j < bin_keys(res).len() implies bin_keys(res)[i] != bin_keys(res)[j] by {
                if j == res.len() - 1 {
                    if bin_keys(prev)[i] == s.last().path {
                        assert(has_record(prev, s.last().path));
                        let a = choose|a: int|
                            0 <= a < bin_keys(s.drop_last()).len() && bin_keys(s.drop_last())[a]
                                == s.last().path;
                        assert(bin_keys(s)[a] == bin_keys(s)[s.len() - 1]);
                    }
                } else {
                    assert(bin_keys(res)[i] == bin_keys(prev)[i]);
                    assert(bin_keys(res)[j] == bin_keys(prev)[j]);
                }
            }
        }
    }
}

impl Ledger {
    /// Remove every record whose path is not in `live` (the paths still
    /// present on disk), and every alias whose canonical target was removed
    /// with its record; return how many records were removed.
    pub fn prune_missing(&mut self, live: &Vec<String>) -> (r: u64)
        requires
            old(self).wf(),
        ensures
            final(self).wf(),
            final(self)@ == spec_prune(old(self)@, strs_view(live@)),
            time_ordered(old(self)@.binaries) ==> time_ordered(final(self)@.binaries),
            r == old(self)@.binaries.len() - final(self)@.binaries.len(),
    {
        let ghost pre = self@;
        let ghost live_v = strs_view(live@);

        let mut kept_aliases: Vec<PathAlias> = Vec::new();
        let n_a = self.aliases.len();
        let mut k: usize = 0;
        while k < n_a
            invariant
                0 <= k <= n_a,
                n_a == self.aliases@.len(),
                self@ == pre,
                aliases_view(kept_aliases@) =~= spec_prune_aliases(
                    pre.aliases.take(k as int),
                    pre.binaries,
                    live_v,
                ),
            decreases n_a - k,
        {
            let a = &self.aliases[k];
            let doomed = match self.find_binary(&a.canonical_path) {
                Some(_) => !contains_str(live, &a.canonical_path),
                None => false,
            };
            proof {
                lemma_key_index(bin_keys(pre.binaries), a.canonical_path@);
                assert(pre.aliases.take(k + 1).drop_last() =~= pre.aliases.take(k as int));
                assert(pre.aliases.take(k + 1).last() == pre.aliases[k as int]);
            }
            if !doomed {
                let copy = PathAlias {
                    alias_path: a.alias_path.clone(),
                    canonical_path: a.canonical_path.clone(),
                };
                kept_aliases.push(copy);
            }
            k = k + 1;
        }

        let mut kept: Vec<BinaryRecord> = Vec::new();
        let n = self.binaries.len();
        let mut i: usize = 0;
        while i < n
            invariant
                0 <= i <= n,
                n == self.binaries@.len(),
                self@ == pre,
                kept@.len() <= i,
                recs_view(kept@) =~= spec_prune_recs(pre.binaries.take(i as int), live_v),
            decreases n - i,
        {
            proof {
                assert(pre.binaries.take(i + 1).drop_last() =~= pre.binaries.take(i as int));
                assert(pre.binaries.take(i + 1).last() == pre.binaries[i as int]);
            }
            if contains_str(live, &self.binaries[i].path) {
                let copy = self.binaries[i].duplicate();
                kept.push(copy);
            }
            i = i + 1;
        }

        let removed = (n - kept.len()) as u64;
        self.binaries = kept;
        self.aliases = kept_aliases;
        proof {
            assert(pre.binaries.take(pre.binaries.len() as int) =~= pre.binaries);
            assert(pre.aliases.take(pre.aliases.len() as int) =~= pre.aliases);
            assert(self@ =~= spec_prune(pre, live_v));
            lemma_prune_recs_exact(pre.binaries, live_v);
            lemma_prune_recs_wf(pre.binaries, live_v);
            let post = self@;
            assert forall|a: int| 0 <= a < post.binaries.len() implies rec_wf(
                #[trigger] post.binaries[a],
            ) by {
                let j = choose|j: int| 0 <= j < pre.binaries.len() && post.binaries[a] == pre.binaries[j];
            }
            if time_ordered(pre.binaries) {
                assert forall|a: int| 0 <= a < post.binaries.len() implies rec_ordered(
                    #[trigger] post.binaries[a],
                ) by {
                    let j = choose|j: int|
                        0 <= j < pre.binaries.len() && post.binaries[a] == pre.binaries[j];
                    assert(rec_ordered(pre.binaries[j]));
                }
            }
            lemma_prune_aliases_wf(pre.aliases, pre.binaries, live_v);
        }
        removed
    }

    /// How many tracked binaries have never been seen executing.
    pub fn get_dusty_count(&self) -> (r: i64)
        requires
            self.wf(),
        ensures
            r == dusty_count(self@.binaries),
    {
        let n = self.binaries.len();
        let mut acc: i64 = 0;
        let mut i: usize = 0;
        while i < n
            invariant
                0 <= i <= n,
                n == self.binaries@.len(),
                0 <= acc <= i,
                acc == dusty_count(self@.binaries.take(i as int)),
            decreases n - i,
        {
            proof {
                assert(self@.binaries.take(i + 1).drop_last() =~= self@.binaries.take(i as int));
                assert(self@.binaries.take(i + 1).last() == self@.binaries[i as int]);
            }
            if self.binaries[i].count == 0 {
                acc = acc + 1;
            }
            i = i + 1;
        }
        proof {
            assert(self@.binaries.take(n as int) =~= self@.binaries);
        }
        acc
    }

    /// All tracked records, in storage order.
    pub fn get_all_binaries(&self) -> (r: Vec<BinaryRecord>)
        ensures
            recs_view(r@) == self@.binaries,
    {
        let n = self.binaries.len();
        let mut out: Vec<BinaryRecord> = Vec::new();
        let mut i: usize = 0;
        while i < n
            invariant
                0 <= i <= n,
                n == self.binaries@.len(),
                recs_view(out@) =~= self@.binaries.take(i as int),
            decreases n - i,
        {
            let copy = self.binaries[i].duplicate();
            out.push(copy);
            proof {
                assert(recs_view(out@) =~= self@.binaries.take(i + 1));
            }
            i = i + 1;
        }
        proof {
            assert(self@.binaries.take(n as int) =~= self@.binaries);
        }
        out
    }

} // impl Ledger

/// How many records have a zero count.
pub open spec fn dusty_count(s: Seq<RecV>) -> int
    decreases s.len(),
{
    if s.len() == 0 {
        0
    } else {
        dusty_count(s.drop_last()) + if s.last().count == 0 {
            1int
        } else {
            0int
        }
    }
}

/// Pruning keeps alias-key uniqueness.
pub proof fn lemma_prune_aliases_wf(s: Seq<AliasV>, bins: Seq<RecV>, live: Seq<Seq<char>>)
    requires
        keys_unique(alias_keys(s)),
    ensures
        keys_unique(alias_keys(spec_prune_aliases(s, bins, live))),
        forall|i: int| 0 <= i < alias_keys(spec_prune_aliases(s, bins, live)).len()
            ==> seq_has(alias_keys(s), #[trigger] alias_keys(spec_prune_aliases(s, bins, live))[i]),
    decreases s.len(),
{
    if s.len() > 0 {
        assert forall|i: int, j: int|
            0 <= i < j < alias_keys(s.drop_last()).len() implies alias_keys(s.drop_last())[i]
            != alias_keys(s.drop_last())[j] by {
            assert(alias_keys(s)[i] == alias_keys(s.drop_last())[i]);
            assert(alias_keys(s)[j] == alias_keys(s.drop_last())[j]);
        }
        lemma_prune_aliases_wf(s.drop_last(), bins, live);
        let res = spec_prune_aliases(s, bins, live);
        let prev = spec_prune_aliases(s.drop_last(), bins, live);
        assert forall|i: int| 0 <= i < alias_keys(res).len() implies seq_has(
            alias_keys(s),
            #[trigger] alias_keys(res)[i],
        ) by {
            if spec_alias_survives(s.last(), bins, live) && i == res.len() - 1 {
                assert(alias_keys(s)[s.len() - 1] == alias_keys(res)[i]);
            } else {
                assert(alias_keys(res)[i] == alias_keys(prev)[i]);
                let j = choose|j: int|
                    0 <= j < alias_keys(s.drop_last()).len() && alias_keys(s.drop_last())[j]
                        == alias_keys(prev)[i];
                assert(alias_keys(s)[j] == alias_keys(prev)[i]);
            }
        }
        if spec_alias_survives(s.last(), bins, live) {
            assert forall|i: int, j: int|
                0 <= i < j < alias_keys(res).len() implies alias_keys(res)[i]
                != alias_keys(res)[j] by {
                if j == res.len() - 1 {
                    assert(alias_keys(res)[i] == alias_keys(prev)[i]);
                    let a = choose|a: int|
                        0 <= a < alias_keys(s.drop_last()).len() && alias_keys(s.drop_last())[a]
                            == alias_keys(prev)[i];
                    assert(alias_keys(s)[a] == alias_keys(prev)[i]);
                    assert(alias_keys(s)[s.len() - 1] == alias_keys(res)[j]);
                } else {
                    assert(alias_keys(res)[i] == alias_keys(prev)[i]);
                    assert(alias_keys(res)[j] == alias_keys(prev)[j]);
                }
            }
        }
    }
}

/// Whether `p` occurs among the views of the strings in `v`.
pub(crate) fn contains_str(v: &Vec<String>, p: &String) -> (r: bool)
    ensures
        r == seq_has(strs_view(v@), p@),
{
    let n = v.len();
    let mut i: usize = 0;
    while i < n
        invariant
            0 <= i <= n,
            n == v@.len(),
            forall|j: int| 0 <= j < i ==> strs_view(v@)[j] != p@,
        decreases n - i,
    {
        if v[i] == *p {
            assert(strs_view(v@)[i as int] == p@);
            return true;
        }
        assert(strs_view(v@)[i as int] != p@);
        i = i + 1;
    }
    false
}

impl BinaryRecord {
    /// A field-for-field copy.
    pub fn duplicate(&self) -> (r: BinaryRecord)
        ensures
            r@ == self@,
    {
        BinaryRecord {
            path: self.path.clone(),
            count: self.count,
            first_seen: self.first_seen,
            last_seen: self.last_seen,
            source: match &self.source {
                Some(s) => Some(s.clone()),
                None => None,
            },
            package_name: match &self.package_name {
                Some(s) => Some(s.clone()),
                None => None,
            },
        }
    }
}

// ---------------------------------------------------------------------------
// Dependency tables: edges, package resolutions, analysis metadata
// ---------------------------------------------------------------------------

/// `d` occurs among the dependency edges `s`.
pub open spec fn dep_in(s: Seq<DepV>, d: DepV) -> bool {
    exists|i: int| 0 <= i < s.len() && s[i] == d
}

pub open spec fn deps_distinct(s: Seq<DepV>) -> bool {
    forall|i: int, j: int| 0 <= i < j < s.len() ==> s[i] != s[j]
}

/// The edges left after dropping every edge of `bin`.
pub open spec fn spec_remove_deps(s: Seq<DepV>, bin: Seq<char>) -> Seq<DepV>
    decreases s.len(),
{
    if s.len() == 0 {
        s
    } else {
        let p = spec_remove_deps(s.drop_last(), bin);
        if s.last().binary != bin {
            p.push(s.last())
        } else {
            p
        }
    }
}

/// The edges after inserting `(bin, lib)` for each lib in `libs`, skipping
/// pairs already present.
pub open spec fn spec_add_deps(s: Seq<DepV>, bin: Seq<char>, libs: Seq<Seq<char>>) -> Seq<DepV>
    decreases libs.len(),
{
    if libs.len() == 0 {
        s
    } else {
        let p = spec_add_deps(s, bin, libs.drop_last());
        let e = DepV { binary: bin, lib: libs.last() };
        if dep_in(p, e) {
            p
        } else {
            p.push(e)
        }
    }
}

/// Transition for `store_dylib_deps`: the edges of `bin` are replaced
/// wholesale by the latest analysis.
pub open spec fn spec_store_dylib_deps(v: LedgerV, bin: Seq<char>, libs: Seq<Seq<char>>) -> LedgerV {
    LedgerV { deps: spec_add_deps(spec_remove_deps(v.deps, bin), bin, libs), ..v }
}

/// Transition for `store_lib_package`: insert-or-replace by library path.
pub open spec fn spec_store_lib_package(
    v: LedgerV,
    lib: Seq<char>,
    manager: Seq<char>,
    package: Seq<char>,
) -> LedgerV {
    let i = key_index(libpkg_keys(v.lib_packages), lib);
    let entry = LibPkgV { lib: lib, manager: manager, package: package };
    if i < 0 {
        LedgerV { lib_packages: v.lib_packages.push(entry), ..v }
    } else {
        LedgerV { lib_packages: v.lib_packages.update(i, entry), ..v }
    }
}

/// Transition for `mark_deps_analyzed`: insert-or-replace by binary path.
pub open spec fn spec_mark_analyzed(
    v: LedgerV,
    bin: Seq<char>,
    mtime: Option<int>,
    now: int,
) -> LedgerV {
    let i = key_index(meta_keys(v.deps_meta), bin);
    let entry = MetaV { binary: bin, analyzed_at: now, mtime: mtime };
    if i < 0 {
        LedgerV { deps_meta: v.deps_meta.push(entry), ..v }
    } else {
        LedgerV { deps_meta: v.deps_meta.update(i, entry), ..v }
    }
}

/// The analysis-cache entry for `bin`, if any.
pub open spec fn spec_meta_lookup(metas: Seq<MetaV>, bin: Seq<char>) -> Option<MetaV> {
    let i = key_index(meta_keys(metas), bin);
    if i < 0 {
        None
    } else {
        Some(metas[i])
    }
}

/// The libraries `bin` depends on, in edge order.
pub open spec fn spec_libs_of(s: Seq<DepV>, bin: Seq<char>) -> Seq<Seq<char>>
    decreases s.len(),
{
    if s.len() == 0 {
        Seq::empty()
    } else {
        let p = spec_libs_of(s.drop_last(), bin);
        if s.last().binary == bin {
            p.push(s.last().lib)
        } else {
            p
        }
    }
}

/// The binaries that depend on `lib`, in edge order.
pub open spec fn spec_users_of(s: Seq<DepV>, lib: Seq<char>) -> Seq<Seq<char>>
    decreases s.len(),
{
    if s.len() == 0 {
        Seq::empty()
    } else {
        let p = spec_users_of(s.drop_last(), lib);
        if s.last().lib == lib {
            p.push(s.last().binary)
        } else {
            p
        }
    }
}

/// The distinct library paths among the edges that have no cached package
/// resolution, in first-appearance order.
pub open spec fn spec_unresolved(s: Seq<DepV>, resolved: Seq<Seq<char>>) -> Seq<Seq<char>>
    decreases s.len(),
{
    if s.len() == 0 {
        Seq::empty()
    } else {
        let p = spec_unresolved(s.drop_last(), resolved);
        if !seq_has(resolved, s.last().lib) && !seq_has(p, s.last().lib) {
            p.push(s.last().lib)
        } else {
            p
        }
    }
}

/// Removing a binary's edges keeps edge distinctness.
pub proof fn lemma_remove_deps_distinct(s: Seq<DepV>, bin: Seq<char>)
    requires
        deps_distinct(s),
    ensures
        deps_distinct(spec_remove_deps(s, bin)),
        forall|i: int| 0 <= i < spec_remove_deps(s, bin).len() ==> dep_in(
            s,
            #[trigger] spec_remove_deps(s, bin)[i],
        ),
    decreases s.len(),
{
    if s.len() > 0 {
        assert forall|i: int, j: int|
            0 <= i < j < s.drop_last().len() implies s.drop_last()[i] != s.drop_last()[j] by {
            assert(s[i] == s.drop_last()[i]);
            assert(s[j] == s.drop_last()[j]);
        }
        lemma_remove_deps_distinct(s.drop_last(), bin);
        let res = spec_remove_deps(s, bin);
        let prev = spec_remove_deps(s.drop_last(), bin);
        assert forall|i: int| 0 <= i < res.len() implies dep_in(s, #[trigger] res[i]) by {
            if s.last().binary != bin && i == res.len() - 1 {
                assert(s[s.len() - 1] == res[i]);
            } else {
                assert(res[i] == prev[i]);
                assert(dep_in(s.drop_last(), prev[i]));
                let j = choose|j: int| 0 <= j < s.drop_last().len() && s.drop_last()[j] == prev[i];
                assert(s[j] == prev[i]);
            }
        }
        if s.last().binary != bin {
            assert forall|i: int, j: int| 0 <= i < j < res.len() implies res[i] != res[j] by {
                if j == res.len() - 1 {
                    assert(res[i] == prev[i]);
                    assert(dep_in(s.drop_last(), prev[i]));
                    let a = choose|a: int|
                        0 <= a < s.drop_last().len() && s.drop_last()[a] == prev[i];
                    assert(s[a] == prev[i]);
                    assert(s[a] != s[s.len() - 1]);
                } else {
                    assert(res[i] == prev[i]);
                    assert(res[j] == prev[j]);
                }
            }
        }
    }
}

/// Inserting deduplicated edges keeps edge distinctness.
pub proof fn lemma_add_deps_distinct(s: Seq<DepV>, bin: Seq<char>, libs: Seq<Seq<char>>)
    requires
        deps_distinct(s),
    ensures
        deps_distinct(spec_add_deps(s, bin, libs)),
    decreases libs.len(),
{
    if libs.len() > 0 {
        lemma_add_deps_distinct(s, bin, libs.drop_last());
        let p = spec_add_deps(s, bin, libs.drop_last());
        let e = DepV { binary: bin, lib: libs.last() };
        let res = spec_add_deps(s, bin, libs);
        if !dep_in(p, e) {
            assert forall|i: int, j: int| 0 <= i < j < res.len() implies res[i] != res[j] by {
                if j == res.len() - 1 {
                    assert(res[i] == p[i]);
                    assert(!(exists|a: int| 0 <= a < p.len() && p[a] == e));
                }
            }
        }
    }
}

impl Ledger {
    /// Index of the cached resolution for `lib`, tied to the model's
    /// `key_index`.
    fn find_lib_package(&self, lib: &String) -> (r: Option<usize>)
        ensures
            ({
                let i = key_index(libpkg_keys(self@.lib_packages), lib@);
                match r {
                    Some(k) => k == i && k < self.lib_packages@.len(),
                    None => i < 0,
                }
            }),
    {
        proof {
            lemma_key_index(libpkg_keys(self@.lib_packages), lib@);
        }
        let n = self.lib_packages.len();
        let mut k: usize = 0;
        while k < n
            invariant
                0 <= k <= n,
                n == self.lib_packages@.len(),
                forall|j: int| 0 <= j < k ==> libpkg_keys(self@.lib_packages)[j] != lib@,
            decreases n - k,
        {
            if self.lib_packages[k].lib_path == *lib {
                assert(libpkg_keys(self@.lib_packages)[k as int] == lib@);
                return Some(k);
            }
            assert(libpkg_keys(self@.lib_packages)[k as int] != lib@);
            k = k + 1;
        }
        None
    }

    /// Index of the analysis-cache entry for `bin`, tied to the model's
    /// `key_index`.
    fn find_meta(&self, bin: &String) -> (r: Option<usize>)
        ensures
            ({
                let i = key_index(meta_keys(self@.deps_meta), bin@);
                match r {
                    Some(k) => k == i && k < self.deps_meta@.len(),
                    None => i < 0,
                }
            }),
    {
        proof {
            lemma_key_index(meta_keys(self@.deps_meta), bin@);
        }
        let n = self.deps_meta.len();
        let mut k: usize = 0;
        while k < n
            invariant
                0 <= k <= n,
                n == self.deps_meta@.len(),
                forall|j: int| 0 <= j < k ==> meta_keys(self@.deps_meta)[j] != bin@,
            decreases n - k,
        {
            if self.deps_meta[k].binary_path == *bin {
                assert(meta_keys(self@.deps_meta)[k as int] == bin@);
                return Some(k);
            }
            assert(meta_keys(self@.deps_meta)[k as int] != bin@);
            k = k + 1;
        }
        None
    }

    /// Whether the edge `(bin, lib)` is present.
    fn has_dep(&self, bin: &String, lib: &String) -> (r: bool)
        ensures
            r == dep_in(self@.deps, DepV { binary: bin@, lib: lib@ }),
    {
        let n = self.deps.len();
        let mut k: usize = 0;
        while k < n
            invariant
                0 <= k <= n,
                n == self.deps@.len(),
                forall|j: int| 0 <= j < k ==> self@.deps[j] != (DepV { binary: bin@, lib: lib@ }),
            decreases n - k,
        {
            if self.deps[k].binary_path == *bin && self.deps[k].lib_path == *lib {
                assert(self@.deps[k as int] == (DepV { binary: bin@, lib: lib@ }));
                return true;
            }
            assert(self@.deps[k as int] != (DepV { binary: bin@, lib: lib@ }));
            k = k + 1;
        }
        false
    }

    /// Replace the stored dependency edges of `binary_path` with `lib_paths`:
    /// the table always reflects the latest analysis only.
    pub fn store_dylib_deps(&mut self, binary_path: &str, lib_paths: &Vec<String>)
        requires
            old(self).wf(),
        ensures
            final(self).wf(),
            final(self)@ == spec_store_dylib_deps(old(self)@, binary_path@, strs_view(lib_paths@)),
    {
        let ghost pre = self@;
        let b = binary_path.to_owned();
        let ghost libs_v = strs_view(lib_paths@);

        let mut kept: Vec<DepEdge> = Vec::new();
        let n = self.deps.len();
        let mut i: usize = 0;
        while i < n
            invariant
                0 <= i <= n,
                n == self.deps@.len(),
                self@ == pre,
                b@ == binary_path@,
                deps_view(kept@) =~= spec_remove_deps(pre.deps.take(i as int), binary_path@),
            decreases n - i,
        {
            proof {
                assert(pre.deps.take(i + 1).drop_last() =~= pre.deps.take(i as int));
                assert(pre.deps.take(i + 1).last() == pre.deps[i as int]);
            }
            if !(self.deps[i].binary_path == b) {
                let copy = DepEdge {
                    binary_path: self.deps[i].binary_path.clone(),
                    lib_path: self.deps[i].lib_path.clone(),
                };
                kept.push(copy);
            }
            i = i + 1;
        }
        proof {
            assert(pre.deps.take(pre.deps.len() as int) =~= pre.deps);
        }
        self.deps = kept;

        let ghost base = spec_remove_deps(pre.deps, binary_path@);
        let m = lib_paths.len();
        let mut j: usize = 0;
        while j < m
            invariant
                0 <= j <= m,
                m == lib_paths@.len(),
                b@ == binary_path@,
                self@.deps =~= spec_add_deps(base, binary_path@, libs_v.take(j as int)),
                self@.binaries == pre.binaries,
                self@.aliases == pre.aliases,
                self@.lib_packages == pre.lib_packages,
                self@.deps_meta == pre.deps_meta,
                self@.tracking_since == pre.tracking_since,
            decreases m - j,
        {
            proof {
                assert(libs_v.take(j + 1).drop_last() =~= libs_v.take(j as int));
                assert(libs_v.take(j + 1).last() == lib_paths@[j as int]@);
            }
            if !self.has_dep(&b, &lib_paths[j]) {
                let edge = DepEdge { binary_path: b.clone(), lib_path: lib_paths[j].clone() };
                self.deps.push(edge);
            }
            j = j + 1;
        }
        proof {
            assert(libs_v.take(libs_v.len() as int) =~= libs_v);
            assert(self@ =~= spec_store_dylib_deps(pre, binary_path@, libs_v));
            lemma_remove_deps_distinct(pre.deps, binary_path@);
            lemma_add_deps_distinct(base, binary_path@, libs_v);
        }
    }

    /// Cache the resolution of a library path to its owning package;
    /// insert-or-replace, so the cache is permanent until explicitly
    /// refreshed.
    pub fn store_lib_package(&mut self, lib_path: &str, manager: &str, package_name: &str)
        requires
            old(self).wf(),
        ensures
            final(self).wf(),
            final(self)@ == spec_store_lib_package(old(self)@, lib_path@, manager@, package_name@),
    {
        let ghost pre = self@;
        let entry = LibPackageInfo {
            lib_path: lib_path.to_owned(),
            manager: manager.to_owned(),
            package_name: package_name.to_owned(),
        };
        let found = self.find_lib_package(&entry.lib_path);
        match found {
            Some(k) => {
                let ghost i = k as int;
                self.lib_packages.set(k, entry);
                proof {
                    lemma_key_index(libpkg_keys(pre.lib_packages), lib_path@);
                    let post = self@;
                    assert(post =~= spec_store_lib_package(pre, lib_path@, manager@, package_name@));
                    assert(libpkg_keys(post.lib_packages) =~= libpkg_keys(pre.lib_packages).update(
                        i,
                        lib_path@,
                    ));
                    assert forall|a: int, b: int|
                        0 <= a < b < post.lib_packages.len() implies libpkg_keys(
                        post.lib_packages,
                    )[a] != libpkg_keys(post.lib_packages)[b] by {
                        if a == i || b == i {
                            assert(libpkg_keys(pre.lib_packages)[i] == lib_path@);
                        }
                    }
                }
            },
            None => {
                self.lib_packages.push(entry);
                proof {
                    let post = self@;
                    assert(post =~= spec_store_lib_package(pre, lib_path@, manager@, package_name@));
                    assert(libpkg_keys(post.lib_packages) =~= libpkg_keys(pre.lib_packages).push(
                        lib_path@,
                    ));
                    lemma_key_index(libpkg_keys(pre.lib_packages), lib_path@);
                    assert forall|a: int, b: int|
                        0 <= a < b < post.lib_packages.len() implies libpkg_keys(
                        post.lib_packages,
                    )[a] != libpkg_keys(post.lib_packages)[b] by {
                        if b == post.lib_packages.len() - 1 {
                            assert(libpkg_keys(pre.lib_packages)[a] != lib_path@);
                        }
                    }
                }
            },
        }
    }

    /// Record that `binary_path` was analyzed at `now` with the given
    /// modification time; insert-or-replace.
    pub fn mark_deps_analyzed(&mut self, binary_path: &str, mtime: Option<i64>, now: i64)
        requires
            old(self).wf(),
        ensures
            final(self).wf(),
            final(self)@ == spec_mark_analyzed(old(self)@, binary_path@, opt_int(mtime), now as int),
    {
        let ghost pre = self@;
        let entry = DepsMeta {
            binary_path: binary_path.to_owned(),
            analyzed_at: now,
            binary_mtime: mtime,
        };
        let found = self.find_meta(&entry.binary_path);
        match found {
            Some(k) => {
                let ghost i = k as int;
                self.deps_meta.set(k, entry);
                proof {
                    lemma_key_index(meta_keys(pre.deps_meta), binary_path@);
                    let post = self@;
                    assert(post =~= spec_mark_analyzed(pre, binary_path@, opt_int(mtime), now as int));
                    assert(meta_keys(post.deps_meta) =~= meta_keys(pre.deps_meta).update(
                        i,
                        binary_path@,
                    ));
                    assert forall|a: int, b: int|
                        0 <= a < b < post.deps_meta.len() implies meta_keys(post.deps_meta)[a]
                        != meta_keys(post.deps_meta)[b] by {
                        if a == i || b == i {
                            assert(meta_keys(pre.deps_meta)[i] == binary_path@);
                        }
                    }
                }
            },
            None => {
                self.deps_meta.push(entry);
                proof {
                    let post = self@;
                    assert(post =~= spec_mark_analyzed(pre, binary_path@, opt_int(mtime), now as int));
                    assert(meta_keys(post.deps_meta) =~= meta_keys(pre.deps_meta).push(binary_path@));
                    lemma_key_index(meta_keys(pre.deps_meta), binary_path@);
                    assert forall|a: int, b: int|
                        0 <= a < b < post.deps_meta.len() implies meta_keys(post.deps_meta)[a]
                        != meta_keys(post.deps_meta)[b] by {
                        if b == post.deps_meta.len() - 1 {
                            assert(meta_keys(pre.deps_meta)[a] != binary_path@);
                        }
                    }
                }
            },
        }
    }

    /// When `binary_path` was last analyzed and the modification time stored
    /// then, if it was ever analyzed.
    pub fn get_deps_analyzed_at(&self, binary_path: &str) -> (r: Option<(i64, Option<i64>)>)
        ensures
            match r {
                Some((at, mt)) => spec_meta_lookup(self@.deps_meta, binary_path@) == Some(
                    MetaV { binary: binary_path@, analyzed_at: at as int, mtime: opt_int(mt) },
                ),
                None => spec_meta_lookup(self@.deps_meta, binary_path@) is None,
            },
    {
        let b = binary_path.to_owned();
        match self.find_meta(&b) {
            Some(k) => {
                proof {
                    lemma_key_index(meta_keys(self@.deps_meta), binary_path@);
                    assert(self@.deps_meta[k as int].binary == binary_path@);
                }
                Some((self.deps_meta[k].analyzed_at, self.deps_meta[k].binary_mtime))
            },
            None => None,
        }
    }

    /// Every library path that some edge references but the package cache
    /// has not resolved, deduplicated, in first-appearance order.
    pub fn get_unresolved_libs(&self) -> (r: Vec<String>)
        ensures
            strs_view(r@) == spec_unresolved(self@.deps, libpkg_keys(self@.lib_packages)),
    {
        let ghost resolved = libpkg_keys(self@.lib_packages);
        let n = self.deps.len();
        let mut out: Vec<String> = Vec::new();
        let mut i: usize = 0;
        while i < n
            invariant
                0 <= i <= n,
                n == self.deps@.len(),
                strs_view(out@) =~= spec_unresolved(self@.deps.take(i as int), resolved),
            decreases n - i,
        {
            proof {
                assert(self@.deps.take(i + 1).drop_last() =~= self@.deps.take(i as int));
                assert(self@.deps.take(i + 1).last() == self@.deps[i as int]);
            }
            let lib = &self.deps[i].lib_path;
            let known = match self.find_lib_package(lib) {
                Some(_) => true,
                None => false,
            };
            proof {
                lemma_key_index(resolved, lib@);
                if known {
                    assert(seq_has(resolved, lib@));
                }
            }
            if !known && !contains_str(&out, lib) {
                let copy = lib.clone();
                out.push(copy);
            }
            i = i + 1;
        }
        proof {
            assert(self@.deps.take(n as int) =~= self@.deps);
        }
        out
    }

    /// The binaries recorded as depending on `lib_path`, in edge order.
    pub fn get_binaries_using_lib(&self, lib_path: &str) -> (r: Vec<String>)
        ensures
            strs_view(r@) == spec_users_of(self@.deps, lib_path@),
    {
        let n = self.deps.len();
        let mut out: Vec<String> = Vec::new();
        let mut i: usize = 0;
        while i < n
            invariant
                0 <= i <= n,
                n == self.deps@.len(),
                strs_view(out@) =~= spec_users_of(self@.deps.take(i as int), lib_path@),
            decreases n - i,
        {
            proof {
                assert(self@.deps.take(i + 1).drop_last() =~= self@.deps.take(i as int));
                assert(self@.deps.take(i + 1).last() == self@.deps[i as int]);
            }
            if strutil::str_eq(self.deps[i].lib_path.as_str(), lib_path) {
                let copy = self.deps[i].binary_path.clone();
                out.push(copy);
            }
            i = i + 1;
        }
        proof {
            assert(self@.deps.take(n as int) =~= self@.deps);
        }
        out
    }

    /// The libraries `binary_path` is recorded as depending on, in edge
    /// order.
    pub fn get_deps_for_binary(&self, binary_path: &str) -> (r: Vec<String>)
        ensures
            strs_view(r@) == spec_libs_of(self@.deps, binary_path@),
    {
        let n = self.deps.len();
        let mut out: Vec<String> = Vec::new();
        let mut i: usize = 0;
        while i < n
            invariant
                0 <= i <= n,
                n == self.deps@.len(),
                strs_view(out@) =~= spec_libs_of(self@.deps.take(i as int), binary_path@),
            decreases n - i,
        {
            proof {
                assert(self@.deps.take(i + 1).drop_last() =~= self@.deps.take(i as int));
                assert(self@.deps.take(i + 1).last() == self@.deps[i as int]);
            }
            if strutil::str_eq(self.deps[i].binary_path.as_str(), binary_path) {
                let copy = self.deps[i].lib_path.clone();
                out.push(copy);
            }
            i = i + 1;
        }
        proof {
            assert(self@.deps.take(n as int) =~= self@.deps);
        }
        out
    }

    /// Every cached library-package resolution.
    pub fn get_all_lib_packages(&self) -> (r: Vec<LibPackageInfo>)
        ensures
            libpkgs_view(r@) == self@.lib_packages,
    {
        let n = self.lib_packages.len();
        let mut out: Vec<LibPackageInfo> = Vec::new();
        let mut i: usize = 0;
        while i < n
            invariant
                0 <= i <= n,
                n == self.lib_packages@.len(),
                libpkgs_view(out@) =~= self@.lib_packages.take(i as int),
            decreases n - i,
        {
            let copy = LibPackageInfo {
                lib_path: self.lib_packages[i].lib_path.clone(),
                manager: self.lib_packages[i].manager.clone(),
                package_name: self.lib_packages[i].package_name.clone(),
            };
            out.push(copy);
            proof {
                assert(libpkgs_view(out@) =~= self@.lib_packages.take(i + 1));
            }
            i = i + 1;
        }
        proof {
            assert(self@.lib_packages.take(n as int) =~= self@.lib_packages);
        }
        out
    }

    /// Every stored dependency edge.
    pub fn get_all_deps(&self) -> (r: Vec<DepEdge>)
        ensures
            deps_view(r@) == self@.deps,
    {
        let n = self.deps.len();
        let mut out: Vec<DepEdge> = Vec::new();
        let mut i: usize = 0;
        while i < n
            invariant
                0 <= i <= n,
                n == self.deps@.len(),
                deps_view(out@) =~= self@.deps.take(i as int),
            decreases n - i,
        {
            let copy = DepEdge {
                binary_path: self.deps[i].binary_path.clone(),
                lib_path: self.deps[i].lib_path.clone(),
            };
            out.push(copy);
            proof {
                assert(deps_view(out@) =~= self@.deps.take(i + 1));
            }
            i = i + 1;
        }
        proof {
            assert(self@.deps.take(n as int) =~= self@.deps);
        }
        out
    }

    /// Drop every dependency edge, cached resolution and analysis-cache
    /// entry, for an explicit refresh.
    pub fn clear_all_deps(&mut self)
        requires
            old(self).wf(),
        ensures
            final(self).wf(),
            final(self)@ == (LedgerV {
                deps: Seq::empty(),
                lib_packages: Seq::empty(),
                deps_meta: Seq::empty(),
                ..old(self)@
            }),
    {
        self.deps = Vec::new();
        self.lib_packages = Vec::new();
        self.deps_meta = Vec::new();
        proof {
            assert(self@ =~= (LedgerV {
                deps: Seq::empty(),
                lib_packages: Seq::empty(),
                deps_meta: Seq::empty(),
                ..old(self)@
            }));
        }
    }

    /// Every alias path, in storage order (unique by well-formedness).
    pub fn get_all_alias_paths(&self) -> (r: Vec<String>)
        ensures
            strs_view(r@) == alias_keys(self@.aliases),
    {
        let n = self.aliases.len();
        let mut out: Vec<String> = Vec::new();
        let mut i: usize = 0;
        while i < n
            invariant
                0 <= i <= n,
                n == self.aliases@.len(),
                strs_view(out@) =~= alias_keys(self@.aliases).take(i as int),
            decreases n - i,
        {
            let copy = self.aliases[i].alias_path.clone();
            out.push(copy);
            proof {
                assert(strs_view(out@) =~= alias_keys(self@.aliases).take(i + 1));
            }
            i = i + 1;
        }
        proof {
            assert(alias_keys(self@.aliases).take(n as int) =~= alias_keys(self@.aliases));
        }
        out
    }
}

// ---------------------------------------------------------------------------
// Laws of the ledger transitions
// ---------------------------------------------------------------------------

/// The count stored for `p`, or 0 when `p` has no record.
pub open spec fn count_of(s: Seq<RecV>, p: Seq<char>) -> int {
    let i = key_index(bin_keys(s), p);
    if i < 0 {
        0
    } else {
        s[i].count
    }
}

/// The provenance stored for `p`, if any.
pub open spec fn source_of(s: Seq<RecV>, p: Seq<char>) -> Option<Seq<char>> {
    let i = key_index(bin_keys(s), p);
    if i < 0 {
        None
    } else {
        s[i].source
    }
}

/// The package name stored for `p`, if any.
pub open spec fn package_of(s: Seq<RecV>, p: Seq<char>) -> Option<Seq<char>> {
    let i = key_index(bin_keys(s), p);
    if i < 0 {
        None
    } else {
        s[i].package_name
    }
}

/// Appending a record for a different path does not change where `p`'s
/// record is found.
proof fn lemma_key_index_push_other(keys: Seq<Seq<char>>, x: Seq<char>, p: Seq<char>)
    requires
        p != x,
    ensures
        key_index(keys.push(x), p) == key_index(keys, p),
{
    lemma_key_index(keys, p);
    lemma_key_index(keys.push(x), p);
    let old_i = key_index(keys, p);
    let new_i = key_index(keys.push(x), p);
    if old_i >= 0 {
        assert(keys.push(x)[old_i] == p);
        if new_i < 0 {
            assert(keys.push(x)[old_i] != p);
        }
        if new_i < old_i {
            assert(keys[new_i] == keys.push(x)[new_i]);
        }
        if new_i > old_i {
            assert(keys.push(x)[old_i] != p);
        }
    } else {
        if new_i >= 0 {
            if new_i < keys.len() {
                assert(keys[new_i] == keys.push(x)[new_i]);
            } else {
                assert(keys.push(x)[new_i] == x);
            }
        }
    }
}

/// One recorded execution bumps the effective record's count by exactly one
/// (below the `i64` ceiling), leaves every other record untouched, leaves
/// the alias table untouched, and preserves well-formedness.
pub proof fn lemma_record_exec_effect(
    v: LedgerV,
    path: Seq<char>,
    source: Option<Seq<char>>,
    now: int,
)
    requires
        ledger_wf(v),
        v.binaries.len() < i64::MAX,
        i64::MIN <= now <= i64::MAX,
    ensures
        ({
            let r = spec_record_exec(v, path, source, now);
            let eff = spec_resolve(v.aliases, path);
            &&& ledger_wf(r)
            &&& r.aliases == v.aliases
            &&& r.binaries.len() <= v.binaries.len() + 1
            &&& (count_of(v.binaries, eff) < i64::MAX ==> count_of(r.binaries, eff) == count_of(
                v.binaries,
                eff,
            ) + 1)
            &&& forall|q: Seq<char>| q != eff ==> count_of(r.binaries, q) == count_of(
                v.binaries,
                q,
            )
        }),
{
    let r = spec_record_exec(v, path, source, now);
    let eff = spec_resolve(v.aliases, path);
    let keys = bin_keys(v.binaries);
    lemma_key_index(keys, eff);
    let i = key_index(keys, eff);
    if i < 0 {
        let fresh = spec_fresh_rec(eff, source, now);
        assert(r.binaries == v.binaries.push(fresh));
        assert(bin_keys(r.binaries) =~= keys.push(eff));
        assert forall|a: int, b: int|
            0 <= a < b < bin_keys(r.binaries).len() implies bin_keys(r.binaries)[a] != bin_keys(
            r.binaries,
        )[b] by {
            if b == r.binaries.len() - 1 {
                assert(keys[a] != eff);
            }
        }
        assert forall|a: int| 0 <= a < r.binaries.len() implies rec_wf(
            #[trigger] r.binaries[a],
        ) by {
            if a < r.binaries.len() - 1 {
                assert(r.binaries[a] == v.binaries[a]);
            }
        }
        lemma_key_index(bin_keys(r.binaries), eff);
        let ni = key_index(bin_keys(r.binaries), eff);
        assert(bin_keys(r.binaries)[r.binaries.len() - 1] == eff);
        if ni < 0 {
            assert(bin_keys(r.binaries)[r.binaries.len() - 1] != eff);
        }
        if ni < r.binaries.len() - 1 {
            assert(keys[ni] == bin_keys(r.binaries)[ni]);
        }
        assert(count_of(r.binaries, eff) == 1);
        assert forall|q: Seq<char>| q != eff implies count_of(r.binaries, q) == count_of(
            v.binaries,
            q,
        ) by {
            lemma_key_index_push_other(keys, eff, q);
            assert(bin_keys(r.binaries) =~= keys.push(eff));
            lemma_key_index(keys, q);
            if key_index(keys, q) >= 0 {
                assert(r.binaries[key_index(keys, q)] == v.binaries[key_index(keys, q)]);
            }
        }
    } else {
        let bumped = spec_bump(v.binaries[i], now);
        assert(r.binaries == v.binaries.update(i, bumped));
        assert(bin_keys(r.binaries) =~= keys);
        assert forall|a: int| 0 <= a < r.binaries.len() implies rec_wf(
            #[trigger] r.binaries[a],
        ) by {
            if a != i {
                assert(r.binaries[a] == v.binaries[a]);
            }
        }
        assert(count_of(r.binaries, eff) == bumped.count);
        assert forall|q: Seq<char>| q != eff implies count_of(r.binaries, q) == count_of(
            v.binaries,
            q,
        ) by {
            lemma_key_index(keys, q);
            if key_index(keys, q) >= 0 {
                assert(keys[key_index(keys, q)] == q);
                assert(key_index(keys, q) != i);
                assert(r.binaries[key_index(keys, q)] == v.binaries[key_index(keys, q)]);
            }
        }
    }
}

/// The ledger after `nows.len()` recorded executions of `path`.
pub open spec fn spec_record_execs(
    v: LedgerV,
    path: Seq<char>,
    source: Option<Seq<char>>,
    nows: Seq<int>,
) -> LedgerV
    decreases nows.len(),
{
    if nows.len() == 0 {
        v
    } else {
        spec_record_exec(
            spec_record_execs(v, path, source, nows.drop_last()),
            path,
            source,
            nows.last(),
        )
    }
}

/// Law: `record_exec` is monotonic. Recording N executions of the same path
/// raises the effective record's count by exactly N, however the path is
/// aliased, as long as the count and the table stay below the `i64` ceiling.
pub proof fn lemma_record_exec_monotonic(
    v: LedgerV,
    path: Seq<char>,
    source: Option<Seq<char>>,
    nows: Seq<int>,
)
    requires
        ledger_wf(v),
        v.binaries.len() + nows.len() <= i64::MAX,
        count_of(v.binaries, spec_resolve(v.aliases, path)) + nows.len() <= i64::MAX,
        forall|i: int| 0 <= i < nows.len() ==> i64::MIN <= #[trigger] nows[i] <= i64::MAX,
    ensures
        ({
            let r = spec_record_execs(v, path, source, nows);
            let eff = spec_resolve(v.aliases, path);
            &&& ledger_wf(r)
            &&& r.aliases == v.aliases
            &&& r.binaries.len() <= v.binaries.len() + nows.len()
            &&& count_of(r.binaries, eff) == count_of(v.binaries, eff) + nows.len()
        }),
    decreases nows.len(),
{
    let eff = spec_resolve(v.aliases, path);
    if nows.len() > 0 {
        assert forall|i: int| 0 <= i < nows.drop_last().len() implies i64::MIN <= #[trigger] nows.drop_last()[i] <= i64::MAX by {
            assert(nows.drop_last()[i] == nows[i]);
        }
        lemma_record_exec_monotonic(v, path, source, nows.drop_last());
        let mid = spec_record_execs(v, path, source, nows.drop_last());
        assert(spec_resolve(mid.aliases, path) == eff);
        lemma_key_index(bin_keys(v.binaries), eff);
        assert(count_of(v.binaries, eff) >= 0);
        assert(nows.last() == nows[nows.len() - 1]);
        lemma_record_exec_effect(mid, path, source, nows.last());
    }
}

/// Law: alias transparency. When the alias table maps `alias` to `canon`
/// and `canon` itself is not aliased (mappings are single-hop), recording an
/// execution of `alias` and recording one of `canon` are the same
/// transition.
pub proof fn lemma_alias_transparent(
    v: LedgerV,
    alias: Seq<char>,
    canon: Seq<char>,
    source: Option<Seq<char>>,
    now: int,
)
    requires
        spec_alias_lookup(v.aliases, alias) == Some(canon),
        spec_alias_lookup(v.aliases, canon) is None,
    ensures
        spec_record_exec(v, alias, source, now) == spec_record_exec(v, canon, source, now),
{
    assert(spec_resolve(v.aliases, alias) == canon);
    assert(spec_resolve(v.aliases, canon) == canon);
}

/// `register_binary` leaves the count, and any already-set provenance, of
/// every path unchanged.
proof fn lemma_register_binary_pointwise(
    v: LedgerV,
    path: Seq<char>,
    pkg: Seq<char>,
    src: Seq<char>,
    q: Seq<char>,
)
    requires
        ledger_wf(v),
    ensures
        count_of(spec_register_binary(v, path, pkg, src).binaries, q) == count_of(v.binaries, q),
        source_of(v.binaries, q) is Some ==> source_of(
            spec_register_binary(v, path, pkg, src).binaries,
            q,
        ) == source_of(v.binaries, q),
        package_of(v.binaries, q) is Some ==> package_of(
            spec_register_binary(v, path, pkg, src).binaries,
            q,
        ) == package_of(v.binaries, q),
{
    let r = spec_register_binary(v, path, pkg, src);
    let keys = bin_keys(v.binaries);
    lemma_key_index(keys, path);
    lemma_key_index(keys, q);
    let i = key_index(keys, path);
    if i < 0 {
        assert(bin_keys(r.binaries) =~= keys.push(path));
        if q != path {
            lemma_key_index_push_other(keys, path, q);
            if key_index(keys, q) >= 0 {
                assert(r.binaries[key_index(keys, q)] == v.binaries[key_index(keys, q)]);
            }
        } else {
            lemma_key_index(bin_keys(r.binaries), q);
            let ni = key_index(bin_keys(r.binaries), q);
            assert(bin_keys(r.binaries)[r.binaries.len() - 1] == path);
            if ni < 0 {
                assert(bin_keys(r.binaries)[r.binaries.len() - 1] != path);
            }
            if 0 <= ni < r.binaries.len() - 1 {
                assert(keys[ni] == bin_keys(r.binaries)[ni]);
            }
            assert(ni == r.binaries.len() - 1);
            assert(r.binaries[ni].count == 0);
        }
    } else {
        assert(bin_keys(r.binaries) =~= keys);
        if key_index(keys, q) >= 0 && key_index(keys, q) != i {
            assert(r.binaries[key_index(keys, q)] == v.binaries[key_index(keys, q)]);
        }
    }
}

/// Law: `register_binary` never changes any count, and never clears an
/// already-set source or package name.
pub proof fn lemma_register_binary_preserves_usage(
    v: LedgerV,
    path: Seq<char>,
    pkg: Seq<char>,
    src: Seq<char>,
)
    requires
        ledger_wf(v),
    ensures
        ({
            let r = spec_register_binary(v, path, pkg, src);
            &&& forall|q: Seq<char>| #[trigger] count_of(r.binaries, q) == count_of(v.binaries, q)
            &&& forall|q: Seq<char>| source_of(v.binaries, q) is Some ==> #[trigger] source_of(
                r.binaries,
                q,
            ) == source_of(v.binaries, q)
            &&& forall|q: Seq<char>| package_of(v.binaries, q) is Some ==> #[trigger] package_of(
                r.binaries,
                q,
            ) == package_of(v.binaries, q)
        }),
{
    let r = spec_register_binary(v, path, pkg, src);
    assert forall|q: Seq<char>| true implies #[trigger] count_of(r.binaries, q) == count_of(
        v.binaries,
        q,
    ) by {
        lemma_register_binary_pointwise(v, path, pkg, src, q);
    }
    assert forall|q: Seq<char>| source_of(v.binaries, q) is Some implies #[trigger] source_of(
        r.binaries,
        q,
    ) == source_of(v.binaries, q) by {
        lemma_register_binary_pointwise(v, path, pkg, src, q);
    }
    assert forall|q: Seq<char>| package_of(v.binaries, q) is Some implies #[trigger] package_of(
        r.binaries,
        q,
    ) == package_of(v.binaries, q) by {
        lemma_register_binary_pointwise(v, path, pkg, src, q);
    }
}

/// Pruning with every kept path alive leaves the record table unchanged.
proof fn lemma_prune_recs_all_live(s: Seq<RecV>, live: Seq<Seq<char>>)
    requires
        forall|i: int| 0 <= i < s.len() ==> seq_has(live, #[trigger] s[i].path),
    ensures
        spec_prune_recs(s, live) == s,
    decreases s.len(),
{
    if s.len() > 0 {
        assert forall|i: int| 0 <= i < s.drop_last().len() implies seq_has(
            live,
            #[trigger] s.drop_last()[i].path,
        ) by {
            assert(s.drop_last()[i] == s[i]);
        }
        lemma_prune_recs_all_live(s.drop_last(), live);
        assert(s[s.len() - 1] == s.last());
        assert(spec_prune_recs(s, live) =~= s);
    }
}

/// Pruning with every alias surviving leaves the alias table unchanged.
proof fn lemma_prune_aliases_all_survive(s: Seq<AliasV>, bins: Seq<RecV>, live: Seq<Seq<char>>)
    requires
        forall|i: int| 0 <= i < s.len() ==> spec_alias_survives(#[trigger] s[i], bins, live),
    ensures
        spec_prune_aliases(s, bins, live) == s,
    decreases s.len(),
{
    if s.len() > 0 {
        assert forall|i: int| 0 <= i < s.drop_last().len() implies spec_alias_survives(
            #[trigger] s.drop_last()[i],
            bins,
            live,
        ) by {
            assert(s.drop_last()[i] == s[i]);
        }
        lemma_prune_aliases_all_survive(s.drop_last(), bins, live);
        assert(s[s.len() - 1] == s.last());
        assert(spec_prune_aliases(s, bins, live) =~= s);
    }
}

/// Every record kept by a prune has its path in `live`.
proof fn lemma_prune_recs_live(s: Seq<RecV>, live: Seq<Seq<char>>)
    ensures
        forall|i: int| 0 <= i < spec_prune_recs(s, live).len() ==> seq_has(
            live,
            #[trigger] spec_prune_recs(s, live)[i].path,
        ),
    decreases s.len(),
{
    if s.len() > 0 {
        lemma_prune_recs_live(s.drop_last(), live);
        let res = spec_prune_recs(s, live);
        let prev = spec_prune_recs(s.drop_last(), live);
        assert forall|i: int| 0 <= i < res.len() implies seq_has(
            live,
            #[trigger] res[i].path,
        ) by {
            if seq_has(live, s.last().path) && i == res.len() - 1 {
            } else {
                assert(res[i] == prev[i]);
            }
        }
    }
}

/// Law: pruning is idempotent. Re-running a prune against the same set of
/// live paths changes nothing.
pub proof fn lemma_prune_idempotent(v: LedgerV, live: Seq<Seq<char>>)
    ensures
        spec_prune(spec_prune(v, live), live) == spec_prune(v, live),
{
    let r = spec_prune(v, live);
    lemma_prune_recs_live(v.binaries, live);
    lemma_prune_recs_all_live(r.binaries, live);
    lemma_prune_recs_exact(v.binaries, live);
    assert forall|i: int| 0 <= i < r.aliases.len() implies spec_alias_survives(
        #[trigger] r.aliases[i],
        r.binaries,
        live,
    ) by {
        let a = r.aliases[i];
        if has_record(r.binaries, a.canonical) {
            assert(seq_has(live, a.canonical));
        }
    }
    lemma_prune_aliases_all_survive(r.aliases, r.binaries, live);
    assert(spec_prune(r, live) =~= r);
}


/// Registering a binary adds at most one record.
pub proof fn lemma_register_binary_len(v: LedgerV, path: Seq<char>, pkg: Seq<char>, src: Seq<char>)
    ensures
        v.binaries.len() <= spec_register_binary(v, path, pkg, src).binaries.len()
            <= v.binaries.len() + 1,
{
    lemma_key_index(bin_keys(v.binaries), path);
    let i = key_index(bin_keys(v.binaries), path);
    if i < 0 {
        assert(spec_register_binary(v, path, pkg, src).binaries.len() == v.binaries.len() + 1);
    } else {
        assert(spec_register_binary(v, path, pkg, src).binaries.len() == v.binaries.len());
    }
}

/// Registering an alias leaves the record table untouched.
pub proof fn lemma_register_alias_binaries(v: LedgerV, a: Seq<char>, c: Seq<char>)
    ensures
        spec_register_alias(v, a, c).binaries == v.binaries,
{
}

// ---------------------------------------------------------------------------
// Reconciler: scan registration and provenance backfill
// ---------------------------------------------------------------------------

/// Transition for one scan entry: register the binary, and register its
/// resolved target as an alias when the symlink resolves elsewhere.
pub open spec fn spec_apply_entry(v: LedgerV, e: crate::scan::ScanEntryV) -> LedgerV {
    let v1 = spec_register_binary(v, e.path, e.package_name, e.source);
    match e.resolved {
        Some(r) => spec_register_alias(v1, r, e.path),
        None => v1,
    }
}

/// Transition for a whole scan, entry by entry, in order.
pub open spec fn spec_apply_scan(v: LedgerV, entries: Seq<crate::scan::ScanEntryV>) -> LedgerV
    decreases entries.len(),
{
    if entries.len() == 0 {
        v
    } else {
        spec_apply_entry(spec_apply_scan(v, entries.drop_last()), entries.last())
    }
}

impl Ledger {
    /// Register every scan result: each binary (never touching counts or
    /// set provenance), each differing symlink target as an alias, and the
    /// tracking-since timestamp if it was never set.
    pub fn apply_scan(&mut self, entries: &Vec<crate::scan::ScanEntry>, now: i64)
        requires
            old(self).wf(),
            old(self)@.binaries.len() + entries@.len() < i64::MAX,
        ensures
            final(self).wf(),
            final(self)@ == spec_apply_scan(
                if old(self)@.tracking_since is None {
                    LedgerV { tracking_since: Some(now as int), ..old(self)@ }
                } else {
                    old(self)@
                },
                crate::scan::entries_view(entries@),
            ),
            time_ordered(old(self)@.binaries) ==> time_ordered(final(self)@.binaries),
    {
        let ghost pre = self@;
        if self.get_tracking_since().is_none() {
            self.set_tracking_since(now);
        }
        let ghost base = self@;
        let ghost ev = crate::scan::entries_view(entries@);
        let n = entries.len();
        let mut i: usize = 0;
        while i < n
            invariant
                0 <= i <= n,
                n == entries@.len(),
                ev == crate::scan::entries_view(entries@),
                self.wf(),
                self@ == spec_apply_scan(base, ev.take(i as int)),
                self@.binaries.len() <= base.binaries.len() + i,
                base.binaries.len() + n < i64::MAX,
                time_ordered(base.binaries) ==> time_ordered(self@.binaries),
            decreases n - i,
        {
            proof {
                assert(ev.take(i + 1).drop_last() =~= ev.take(i as int));
                assert(ev.take(i + 1).last() == ev[i as int]);
            }
            let e = &entries[i];
            self.register_binary(e.path.as_str(), e.package_name.as_str(), e.source.as_str());
            match &e.resolved {
                Some(r) => {
                    self.register_alias(r.as_str(), e.path.as_str());
                },
                None => {},
            }
            proof {
                assert(self@ == spec_apply_scan(base, ev.take(i + 1)));
                let stepv = spec_apply_scan(base, ev.take(i as int));
                let e_v = ev[i as int];
                let mid = spec_register_binary(stepv, e_v.path, e_v.package_name, e_v.source);
                lemma_register_binary_len(stepv, e_v.path, e_v.package_name, e_v.source);
                assert(spec_apply_scan(base, ev.take(i + 1)) == spec_apply_entry(stepv, e_v));
                match e_v.resolved {
                    Some(rr) => {
                        lemma_register_alias_binaries(mid, rr, e_v.path);
                    },
                    None => {},
                }
                assert(self@.binaries.len() <= stepv.binaries.len() + 1);
            }
            i = i + 1;
        }
        proof {
            assert(ev.take(n as int) =~= ev);
        }
    }

    /// Insert a complete record as loaded from the persistent store:
    /// accepted only when it satisfies the record invariant and no record
    /// for its path exists yet; otherwise the store is left unchanged.
    pub fn insert_record(&mut self, rec: BinaryRecord) -> (r: bool)
        requires
            old(self).wf(),
            old(self)@.binaries.len() < i64::MAX,
        ensures
            final(self).wf(),
            r == (rec_wf(rec@) && rec_ordered(rec@) && !has_record(old(self)@.binaries, rec@.path)),
            time_ordered(old(self)@.binaries) ==> time_ordered(final(self)@.binaries),
            r ==> final(self)@ == (LedgerV { binaries: old(self)@.binaries.push(rec@), ..old(self)@ }),
            !r ==> final(self)@ == old(self)@,
    {
        let ghost pre = self@;
        proof {
            lemma_key_index(bin_keys(pre.binaries), rec@.path);
        }
        let count_ok = rec.count >= 0;
        let zero_iff_unset = (rec.count == 0) == (rec.first_seen.is_none()
            && rec.last_seen.is_none());
        let pos_has_last = rec.count <= 0 || rec.last_seen.is_some();
        let ordered = match (rec.first_seen, rec.last_seen) {
            (Some(f), Some(l)) => f <= l,
            _ => true,
        };
        let valid = count_ok && zero_iff_unset && pos_has_last && ordered;
        assert(valid == (rec_wf(rec@) && rec_ordered(rec@)));
        if !valid {
            return false;
        }
        match self.find_binary(&rec.path) {
            Some(_) => {
                proof {
                    assert(has_record(pre.binaries, rec@.path)) by {
                        assert(bin_keys(pre.binaries)[key_index(bin_keys(pre.binaries), rec@.path)]
                            == rec@.path);
                    }
                }
                false
            },
            None => {
                proof {
                    if has_record(pre.binaries, rec@.path) {
                        let j = choose|j: int|
                            0 <= j < bin_keys(pre.binaries).len() && bin_keys(pre.binaries)[j]
                                == rec@.path;
                    }
                }
                self.binaries.push(rec);
                proof {
                    let post = self@;
                    assert(post =~= (LedgerV { binaries: pre.binaries.push(rec@), ..pre }));
                    assert(bin_keys(post.binaries) =~= bin_keys(pre.binaries).push(rec@.path));
                    assert forall|a: int, b: int|
                        0 <= a < b < post.binaries.len() implies bin_keys(post.binaries)[a]
                        != bin_keys(post.binaries)[b] by {
                        if b == post.binaries.len() - 1 {
                            assert(bin_keys(pre.binaries)[a] != rec@.path);
                        }
                    }
                    assert forall|a: int| 0 <= a < post.binaries.len() implies rec_wf(
                        #[trigger] post.binaries[a],
                    ) by {
                        if a < post.binaries.len() - 1 {
                            assert(post.binaries[a] == pre.binaries[a]);
                        }
                    }
                    if time_ordered(pre.binaries) {
                        assert forall|a: int| 0 <= a < post.binaries.len() implies rec_ordered(
                            #[trigger] post.binaries[a],
                        ) by {
                            if a < post.binaries.len() - 1 {
                                assert(post.binaries[a] == pre.binaries[a]);
                            }
                        }
                    }
                }
                true
            },
        }
    }

    /// The paths of every record with no package name yet: the binaries the
    /// daemon discovered that a scan has not categorized.
    pub fn get_uncategorized_paths(&self) -> (r: Vec<String>)
        ensures
            strs_view(r@) == spec_uncategorized(self@.binaries),
    {
        let n = self.binaries.len();
        let mut out: Vec<String> = Vec::new();
        let mut i: usize = 0;
        while i < n
            invariant
                0 <= i <= n,
                n == self.binaries@.len(),
                strs_view(out@) =~= spec_uncategorized(self@.binaries.take(i as int)),
            decreases n - i,
        {
            proof {
                assert(self@.binaries.take(i + 1).drop_last() =~= self@.binaries.take(i as int));
                assert(self@.binaries.take(i + 1).last() == self@.binaries[i as int]);
            }
            if self.binaries[i].package_name.is_none() {
                let copy = self.binaries[i].path.clone();
                out.push(copy);
            }
            i = i + 1;
        }
        proof {
            assert(self@.binaries.take(n as int) =~= self@.binaries);
        }
        out
    }

    /// Write a classification for `path`: set its source and package name,
    /// touching nothing else. A missing record is left as it is.
    pub fn set_categorization(&mut self, path: &str, source: &str, package_name: &str)
        requires
            old(self).wf(),
        ensures
            final(self).wf(),
            final(self)@ == spec_set_categorization(old(self)@, path@, source@, package_name@),
            time_ordered(old(self)@.binaries) ==> time_ordered(final(self)@.binaries),
    {
        let ghost pre = self@;
        let p = path.to_owned();
        match self.find_binary(&p) {
            Some(k) => {
                let ghost i = k as int;
                let rec = &mut self.binaries[k];
                rec.source = Some(source.to_owned());
                rec.package_name = Some(package_name.to_owned());
                proof {
                    lemma_key_index(bin_keys(pre.binaries), path@);
                    let post = self@;
                    assert(post =~= spec_set_categorization(pre, path@, source@, package_name@));
                    assert(bin_keys(post.binaries) =~= bin_keys(pre.binaries));
                    assert forall|a: int| 0 <= a < post.binaries.len() implies rec_wf(
                        #[trigger] post.binaries[a],
                    ) by {
                        if a != i {
                            assert(post.binaries[a] == pre.binaries[a]);
                        }
                    }
                    if time_ordered(pre.binaries) {
                        assert forall|a: int| 0 <= a < post.binaries.len() implies rec_ordered(
                            #[trigger] post.binaries[a],
                        ) by {
                            if a != i {
                                assert(post.binaries[a] == pre.binaries[a]);
                            } else {
                                assert(rec_ordered(pre.binaries[i]));
                            }
                        }
                    }
                }
            },
            None => {
                proof {
                    assert(self@ =~= spec_set_categorization(pre, path@, source@, package_name@));
                }
            },
        }
    }
}

/// One binary to backfill: its path and, when it is a symlink, the link's
/// target.
pub struct BackfillItem {
    pub path: String,
    pub link_target: Option<String>,
}

/// Mathematical model of a backfill item.
#[verifier::ext_equal]
pub ghost struct BackfillItemV {
    pub path: Seq<char>,
    pub link_target: Option<Seq<char>>,
}

impl View for BackfillItem {
    type V = BackfillItemV;

    open spec fn view(&self) -> BackfillItemV {
        BackfillItemV {
            path: self.path@,
            link_target: match &self.link_target {
                Some(s) => Some(s@),
                None => None,
            },
        }
    }
}

pub open spec fn backfill_view(s: Seq<BackfillItem>) -> Seq<BackfillItemV> {
    s.map_values(|b: BackfillItem| b@)
}

/// The classification written for one uncategorized binary: its source by
/// the configured patterns, and its package by the scanner's guess, with
/// the file's own name (or "unknown" when there is none) as the fallback.
pub open spec fn spec_classify(
    cfg: crate::config::ConfigV,
    home: Seq<char>,
    item: BackfillItemV,
) -> (Seq<char>, Seq<char>) {
    let base = crate::scan::spec_base_name(item.path);
    let default_name = if base.len() == 0 {
        "unknown"@
    } else {
        base
    };
    (
        crate::config::spec_categorize(cfg.sources, item.path),
        crate::scan::spec_package_name(item.path, item.link_target, default_name, home),
    )
}

/// Transition for `backfill_uncategorized`: each item's classification
/// written in order.
pub open spec fn spec_backfill(
    v: LedgerV,
    items: Seq<BackfillItemV>,
    cfg: crate::config::ConfigV,
    home: Seq<char>,
) -> LedgerV
    decreases items.len(),
{
    if items.len() == 0 {
        v
    } else {
        let prev = spec_backfill(v, items.drop_last(), cfg, home);
        let c = spec_classify(cfg, home, items.last());
        spec_set_categorization(prev, items.last().path, c.0, c.1)
    }
}

impl Ledger {
    /// Backfill provenance for binaries the daemon discovered: classify
    /// each given path (the caller supplies its symlink target, the one
    /// fact only the filesystem knows) and write the result; returns how
    /// many were classified.
    pub fn backfill_uncategorized(
        &mut self,
        items: &Vec<BackfillItem>,
        config: &crate::config::Config,
        home: &str,
    ) -> (r: u64)
        requires
            old(self).wf(),
            items@.len() <= u64::MAX,
        ensures
            final(self).wf(),
            final(self)@ == spec_backfill(old(self)@, backfill_view(items@), config@, home@),
            time_ordered(old(self)@.binaries) ==> time_ordered(final(self)@.binaries),
            r == items@.len(),
    {
        let ghost base = self@;
        let ghost iv = backfill_view(items@);
        let n = items.len();
        let mut i: usize = 0;
        while i < n
            invariant
                0 <= i <= n,
                n == items@.len(),
                iv == backfill_view(items@),
                self.wf(),
                self@ == spec_backfill(base, iv.take(i as int), config@, home@),
                time_ordered(base.binaries) ==> time_ordered(self@.binaries),
            decreases n - i,
        {
            proof {
                assert(iv.take(i + 1).drop_last() =~= iv.take(i as int));
                assert(iv.take(i + 1).last() == iv[i as int]);
            }
            let item = &items[i];
            let source = config.categorize_path(item.path.as_str());
            let base_name = crate::scan::base_name(item.path.as_str());
            let default_name: String = if base_name.as_str().unicode_len() == 0 {
                crate::strutil::copy_str("unknown")
            } else {
                base_name
            };
            let link: Option<&str> = match &item.link_target {
                Some(t) => Some(t.as_str()),
                None => None,
            };
            let pkg = crate::scan::get_package_name(
                item.path.as_str(),
                link,
                default_name.as_str(),
                home,
            );
            self.set_categorization(item.path.as_str(), source.as_str(), pkg.as_str());
            proof {
                let c = spec_classify(config@, home@, iv[i as int]);
                assert(source@ == c.0);
                assert(pkg@ == c.1);
                assert(self@ == spec_backfill(base, iv.take(i + 1), config@, home@));
            }
            i = i + 1;
        }
        proof {
            assert(iv.take(n as int) =~= iv);
        }
        n as u64
    }
}

/// The paths of records with no package name, in storage order.
pub open spec fn spec_uncategorized(s: Seq<RecV>) -> Seq<Seq<char>>
    decreases s.len(),
{
    if s.len() == 0 {
        Seq::empty()
    } else {
        let p = spec_uncategorized(s.drop_last());
        if s.last().package_name is None {
            p.push(s.last().path)
        } else {
            p
        }
    }
}

/// Transition for `set_categorization`: both provenance fields set, the
/// rest untouched; no record appears or disappears.
pub open spec fn spec_set_categorization(
    v: LedgerV,
    path: Seq<char>,
    source: Seq<char>,
    package_name: Seq<char>,
) -> LedgerV {
    let i = key_index(bin_keys(v.binaries), path);
    if i < 0 {
        v
    } else {
        LedgerV {
            binaries: v.binaries.update(
                i,
                RecV { source: Some(source), package_name: Some(package_name), ..v.binaries[i] },
            ),
            ..v
        }
    }
}

// ---------------------------------------------------------------------------
// Alias-count migration: crediting historical counts recorded under
// resolved paths to their canonical paths
// ---------------------------------------------------------------------------

/// One row to migrate: a record stored under an alias path, and the
/// canonical path its counts belong to.
#[verifier::ext_equal]
pub ghost struct MigV {
    pub rec: RecV,
    pub canonical: Seq<char>,
}

/// The earlier of two optional timestamps, a missing side yielding to the
/// other.
pub open spec fn spec_min_opt(a: Option<int>, b: Option<int>) -> Option<int> {
    match (a, b) {
        (None, _) => b,
        (_, None) => a,
        (Some(x), Some(y)) => Some(
            if y < x {
                y
            } else {
                x
            },
        ),
    }
}

/// The later of two optional timestamps, a missing side yielding to the
/// other.
pub open spec fn spec_max_opt(a: Option<int>, b: Option<int>) -> Option<int> {
    match (a, b) {
        (None, _) => b,
        (_, None) => a,
        (Some(x), Some(y)) => Some(
            if y > x {
                y
            } else {
                x
            },
        ),
    }
}

/// The canonical record after absorbing an alias-path record: counts add
/// (saturating at the `i64` ceiling), the first-seen time becomes the
/// earlier, the last-seen time the later.
pub open spec fn spec_merge_counts(c: RecV, m: RecV) -> RecV {
    RecV {
        count: if c.count + m.count <= i64::MAX {
            c.count + m.count
        } else {
            i64::MAX as int
        },
        first_seen: spec_min_opt(c.first_seen, m.first_seen),
        last_seen: spec_max_opt(c.last_seen, m.last_seen),
        ..c
    }
}

/// The record table without the record for `p`, if there is one.
pub open spec fn spec_remove_key(s: Seq<RecV>, p: Seq<char>) -> Seq<RecV> {
    let j = key_index(bin_keys(s), p);
    if j < 0 {
        s
    } else {
        s.remove(j)
    }
}

/// One migration step: credit the row's counts to its canonical record
/// when that record exists, then delete the alias-path row.
pub open spec fn spec_migrate_step(v: LedgerV, it: MigV) -> LedgerV {
    let i = key_index(bin_keys(v.binaries), it.canonical);
    let merged = if i < 0 {
        v.binaries
    } else {
        v.binaries.update(i, spec_merge_counts(v.binaries[i], it.rec))
    };
    LedgerV { binaries: spec_remove_key(merged, it.rec.path), ..v }
}

/// The whole pass, row by row in order.
pub open spec fn spec_migrate_pass(v: LedgerV, items: Seq<MigV>) -> LedgerV
    decreases items.len(),
{
    if items.len() == 0 {
        v
    } else {
        spec_migrate_step(spec_migrate_pass(v, items.drop_last()), items.last())
    }
}

/// The rows to migrate: every executed record whose path the alias table
/// maps elsewhere, in storage order.
pub open spec fn spec_migrate_snapshot(s: Seq<RecV>, aliases: Seq<AliasV>) -> Seq<MigV>
    decreases s.len(),
{
    if s.len() == 0 {
        Seq::empty()
    } else {
        let p = spec_migrate_snapshot(s.drop_last(), aliases);
        match spec_alias_lookup(aliases, s.last().path) {
            Some(c) => if s.last().count > 0 {
                p.push(MigV { rec: s.last(), canonical: c })
            } else {
                p
            },
            None => p,
        }
    }
}

/// The final sweep: any remaining never-executed record stored under an
/// alias path goes too.
pub open spec fn spec_migrate_cleanup(s: Seq<RecV>, aliases: Seq<AliasV>) -> Seq<RecV>
    decreases s.len(),
{
    if s.len() == 0 {
        s
    } else {
        let p = spec_migrate_cleanup(s.drop_last(), aliases);
        let doomed = s.last().count == 0 && spec_alias_lookup(aliases, s.last().path) is Some;
        if doomed {
            p
        } else {
            p.push(s.last())
        }
    }
}

/// Transition for `migrate_alias_counts`.
pub open spec fn spec_migrate(v: LedgerV) -> LedgerV {
    let passed = spec_migrate_pass(v, spec_migrate_snapshot(v.binaries, v.aliases));
    LedgerV { binaries: spec_migrate_cleanup(passed.binaries, v.aliases), ..passed }
}

/// Removing a keyed record keeps uniqueness, and every survivor comes from
/// the original table.
proof fn lemma_remove_key_wf(s: Seq<RecV>, p: Seq<char>)
    requires
        keys_unique(bin_keys(s)),
    ensures
        keys_unique(bin_keys(spec_remove_key(s, p))),
        forall|i: int| 0 <= i < spec_remove_key(s, p).len() ==> exists|j: int|
            0 <= j < s.len() && #[trigger] spec_remove_key(s, p)[i] == s[j],
        spec_remove_key(s, p).len() <= s.len(),
{
    lemma_key_index(bin_keys(s), p);
    let j = key_index(bin_keys(s), p);
    if j >= 0 {
        let res = s.remove(j);
        assert forall|i: int| 0 <= i < res.len() implies exists|a: int|
            0 <= a < s.len() && #[trigger] res[i] == s[a] by {
            if i < j {
                assert(res[i] == s[i]);
            } else {
                assert(res[i] == s[i + 1]);
            }
        }
        assert forall|a: int, b: int|
            0 <= a < b < bin_keys(res).len() implies bin_keys(res)[a] != bin_keys(res)[b] by {
            let a2 = if a < j {
                a
            } else {
                a + 1
            };
            let b2 = if b < j {
                b
            } else {
                b + 1
            };
            assert(res[a] == s[a2]);
            assert(res[b] == s[b2]);
            assert(bin_keys(s)[a2] != bin_keys(s)[b2]);
        }
    }
}

/// Every record key surviving the cleanup sweep was a key before it.
proof fn lemma_cleanup_sub(s: Seq<RecV>, aliases: Seq<AliasV>)
    ensures
        forall|p: Seq<char>| #[trigger] has_record(spec_migrate_cleanup(s, aliases), p)
            ==> has_record(s, p),
        forall|i: int| 0 <= i < spec_migrate_cleanup(s, aliases).len() ==> exists|j: int|
            0 <= j < s.len() && #[trigger] spec_migrate_cleanup(s, aliases)[i] == s[j],
        spec_migrate_cleanup(s, aliases).len() <= s.len(),
    decreases s.len(),
{
    if s.len() > 0 {
        lemma_cleanup_sub(s.drop_last(), aliases);
        let res = spec_migrate_cleanup(s, aliases);
        let prev = spec_migrate_cleanup(s.drop_last(), aliases);
        let doomed = s.last().count == 0 && spec_alias_lookup(aliases, s.last().path) is Some;
        assert forall|i: int| 0 <= i < res.len() implies exists|j: int|
            0 <= j < s.len() && #[trigger] res[i] == s[j] by {
            if !doomed && i == res.len() - 1 {
                assert(res[i] == s[s.len() - 1]);
            } else {
                assert(res[i] == prev[i]);
                let j = choose|j: int|
                    0 <= j < s.drop_last().len() && #[trigger] prev[i] == s.drop_last()[j];
                assert(s.drop_last()[j] == s[j]);
            }
        }
        assert forall|p: Seq<char>| #[trigger] has_record(res, p) implies has_record(s, p) by {
            let i = choose|i: int| 0 <= i < bin_keys(res).len() && bin_keys(res)[i] == p;
            assert(res[i].path == p);
            let j = choose|j: int| 0 <= j < s.len() && res[i] == s[j];
            assert(bin_keys(s)[j] == p);
        }
    }
}

/// The cleanup sweep keeps record-key uniqueness.
#[verifier::rlimit(60)]
proof fn lemma_cleanup_wf(s: Seq<RecV>, aliases: Seq<AliasV>)
    requires
        keys_unique(bin_keys(s)),
    ensures
        keys_unique(bin_keys(spec_migrate_cleanup(s, aliases))),
        forall|i: int| 0 <= i < spec_migrate_cleanup(s, aliases).len() ==> exists|j: int|
            0 <= j < s.len() && #[trigger] spec_migrate_cleanup(s, aliases)[i] == s[j],
    decreases s.len(),
{
    lemma_cleanup_sub(s, aliases);
    if s.len() > 0 {
        assert forall|a: int, b: int|
            0 <= a < b < bin_keys(s.drop_last()).len() implies bin_keys(s.drop_last())[a]
            != bin_keys(s.drop_last())[b] by {
            assert(bin_keys(s)[a] == bin_keys(s.drop_last())[a]);
            assert(bin_keys(s)[b] == bin_keys(s.drop_last())[b]);
        }
        lemma_cleanup_wf(s.drop_last(), aliases);
        lemma_cleanup_sub(s.drop_last(), aliases);
        let res = spec_migrate_cleanup(s, aliases);
        let prev = spec_migrate_cleanup(s.drop_last(), aliases);
        let doomed = s.last().count == 0 && spec_alias_lookup(aliases, s.last().path) is Some;
        if !doomed {
            assert(res == prev.push(s.last()));
            assert forall|a: int, b: int|
                0 <= a < b < bin_keys(res).len() implies bin_keys(res)[a] != bin_keys(res)[b] by {
                if b == res.len() - 1 {
                    assert(res[a] == prev[a]);
                    assert(bin_keys(res)[a] == res[a].path);
                    assert(bin_keys(prev)[a] == prev[a].path);
                    assert(bin_keys(prev)[a] == bin_keys(res)[a]);
                    if bin_keys(prev)[a] == s.last().path {
                        assert(has_record(prev, s.last().path));
                        assert(has_record(s.drop_last(), s.last().path));
                        let j = choose|j: int|
                            0 <= j < bin_keys(s.drop_last()).len() && bin_keys(s.drop_last())[j]
                                == s.last().path;
                        assert(s.drop_last()[j] == s[j]);
                        assert(bin_keys(s.drop_last())[j] == s.drop_last()[j].path);
                        assert(bin_keys(s)[j] == s[j].path);
                        assert(bin_keys(s)[s.len() - 1] == s.last().path);
                        assert(bin_keys(s)[j] == bin_keys(s)[s.len() - 1]);
                        assert(false);
                    }
                    assert(bin_keys(res)[b] == s.last().path);
                } else {
                    assert(res[a] == prev[a]);
                    assert(res[b] == prev[b]);
                    assert(bin_keys(res)[a] == res[a].path);
                    assert(bin_keys(res)[b] == res[b].path);
                    assert(bin_keys(prev)[a] == prev[a].path);
                    assert(bin_keys(prev)[b] == prev[b].path);
                    assert(bin_keys(prev)[a] != bin_keys(prev)[b]);
                }
            }
        }
    }
}

impl Ledger {
    /// Credit execution counts recorded under alias (resolved) paths to
    /// their canonical paths: for each executed record whose path the
    /// alias table maps elsewhere, add its counts into the canonical
    /// record (earliest first-seen, latest last-seen) and delete the
    /// alias-path record; finally drop any never-executed record left
    /// under an alias path. Returns how many records were migrated.
    #[verifier::rlimit(100)]
    pub fn migrate_alias_counts(&mut self) -> (r: u64)
        requires
            old(self).wf(),
        ensures
            final(self).wf(),
            final(self)@ == spec_migrate(old(self)@),
            r == spec_migrate_snapshot(old(self)@.binaries, old(self)@.aliases).len(),
    {
        let ghost base = self@;

        // Snapshot the rows to migrate.
        let mut items: Vec<BinaryRecord> = Vec::new();
        let mut canonicals: Vec<String> = Vec::new();
        let n = self.binaries.len();
        let mut i: usize = 0;
        while i < n
            invariant
                0 <= i <= n,
                n == self.binaries@.len(),
                self@ == base,
                items@.len() == canonicals@.len(),
                ({
                    let snap = spec_migrate_snapshot(base.binaries.take(i as int), base.aliases);
                    &&& items@.len() == snap.len()
                    &&& forall|k: int| 0 <= k < snap.len() ==> #[trigger] snap[k] == (MigV {
                        rec: items@[k]@,
                        canonical: canonicals@[k]@,
                    })
                }),
                forall|k: int| 0 <= k < items@.len() ==> rec_wf(#[trigger] items@[k]@)
                    && items@[k]@.count > 0,
            decreases n - i,
        {
            proof {
                assert(base.binaries.take(i + 1).drop_last() =~= base.binaries.take(i as int));
                assert(base.binaries.take(i + 1).last() == base.binaries[i as int]);
            }
            if self.binaries[i].count > 0 {
                match self.resolve_alias(self.binaries[i].path.as_str()) {
                    Some(c) => {
                        let copy = self.binaries[i].duplicate();
                        items.push(copy);
                        canonicals.push(c);
                    },
                    None => {},
                }
            }
            i = i + 1;
        }
        proof {
            assert(base.binaries.take(n as int) =~= base.binaries);
        }
        let ghost snap = spec_migrate_snapshot(base.binaries, base.aliases);

        // Apply each row: merge into the canonical record, then delete the
        // alias-path record.
        let m = items.len();
        let mut k: usize = 0;
        while k < m
            invariant
                0 <= k <= m,
                m == items@.len(),
                m == canonicals@.len(),
                m == snap.len(),
                forall|a: int| 0 <= a < snap.len() ==> #[trigger] snap[a] == (MigV {
                    rec: items@[a]@,
                    canonical: canonicals@[a]@,
                }),
                forall|a: int| 0 <= a < items@.len() ==> rec_wf(#[trigger] items@[a]@)
                    && items@[a]@.count > 0,
                self.wf(),
                self@ == spec_migrate_pass(base, snap.take(k as int)),
                self@.aliases == base.aliases,
                self@.deps == base.deps,
                self@.lib_packages == base.lib_packages,
                self@.deps_meta == base.deps_meta,
                self@.tracking_since == base.tracking_since,
            decreases m - k,
        {
            proof {
                assert(snap.take(k + 1).drop_last() =~= snap.take(k as int));
                assert(snap.take(k + 1).last() == snap[k as int]);
            }
            let ghost stepv = self@;
            match self.find_binary(&canonicals[k]) {
                Some(ci) => {
                    let ghost cidx = ci as int;
                    let item_count = items[k].count;
                    let item_first = items[k].first_seen;
                    let item_last = items[k].last_seen;
                    let rec = &mut self.binaries[ci];
                    if item_count > i64::MAX - rec.count {
                        rec.count = i64::MAX;
                    } else {
                        rec.count = rec.count + item_count;
                    }
                    rec.first_seen = match (rec.first_seen, item_first) {
                        (None, b) => b,
                        (a, None) => a,
                        (Some(x), Some(y)) => Some(
                            if y < x {
                                y
                            } else {
                                x
                            },
                        ),
                    };
                    rec.last_seen = match (rec.last_seen, item_last) {
                        (None, b) => b,
                        (a, None) => a,
                        (Some(x), Some(y)) => Some(
                            if y > x {
                                y
                            } else {
                                x
                            },
                        ),
                    };
                    proof {
                        lemma_key_index(bin_keys(stepv.binaries), canonicals@[k as int]@);
                        let post = self@;
                        assert(post.binaries =~= stepv.binaries.update(
                            cidx,
                            spec_merge_counts(stepv.binaries[cidx], items@[k as int]@),
                        ));
                        assert(bin_keys(post.binaries) =~= bin_keys(stepv.binaries));
                        assert forall|a: int| 0 <= a < post.binaries.len() implies rec_wf(
                            #[trigger] post.binaries[a],
                        ) by {
                            if a != cidx {
                                assert(post.binaries[a] == stepv.binaries[a]);
                            } else {
                                assert(rec_wf(stepv.binaries[cidx]));
                                assert(rec_wf(items@[k as int]@) && items@[k as int]@.count > 0);
                            }
                        }
                    }
                },
                None => {},
            }
            let ghost merged = self@;
            proof {
                let it = snap[k as int];
                let ci2 = key_index(bin_keys(stepv.binaries), it.canonical);
                if ci2 < 0 {
                    assert(merged.binaries == stepv.binaries);
                }
            }
            match self.find_binary(&items[k].path) {
                Some(j) => {
                    let ghost jdx = j as int;
                    self.binaries.remove(j);
                    proof {
                        lemma_key_index(bin_keys(merged.binaries), items@[k as int]@.path);
                        let post = self@;
                        assert(post.binaries =~= merged.binaries.remove(jdx));
                        lemma_remove_key_wf(merged.binaries, items@[k as int]@.path);
                        assert(post.binaries =~= spec_remove_key(
                            merged.binaries,
                            items@[k as int]@.path,
                        ));
                        assert forall|a: int| 0 <= a < post.binaries.len() implies rec_wf(
                            #[trigger] post.binaries[a],
                        ) by {
                            let b = choose|b: int|
                                0 <= b < merged.binaries.len() && post.binaries[a]
                                    == merged.binaries[b];
                        }
                    }
                },
                None => {
                    proof {
                        let post = self@;
                        assert(post.binaries =~= spec_remove_key(
                            merged.binaries,
                            items@[k as int]@.path,
                        ));
                    }
                },
            }
            proof {
                assert(self@ =~= spec_migrate_step(stepv, snap[k as int]));
                assert(self@ == spec_migrate_pass(base, snap.take(k + 1)));
            }
            k = k + 1;
        }
        proof {
            assert(snap.take(m as int) =~= snap);
        }
        let ghost passed = self@;

        // Sweep any remaining never-executed alias-path rows.
        let mut kept: Vec<BinaryRecord> = Vec::new();
        let nb = self.binaries.len();
        let mut b: usize = 0;
        while b < nb
            invariant
                0 <= b <= nb,
                nb == self.binaries@.len(),
                self@ == passed,
                recs_view(kept@) =~= spec_migrate_cleanup(
                    passed.binaries.take(b as int),
                    base.aliases,
                ),
            decreases nb - b,
        {
            proof {
                assert(passed.binaries.take(b + 1).drop_last() =~= passed.binaries.take(b as int));
                assert(passed.binaries.take(b + 1).last() == passed.binaries[b as int]);
            }
            let is_alias_row = match self.resolve_alias(self.binaries[b].path.as_str()) {
                Some(_) => true,
                None => false,
            };
            proof {
                assert(passed.aliases == base.aliases);
            }
            if !(self.binaries[b].count == 0 && is_alias_row) {
                let copy = self.binaries[b].duplicate();
                kept.push(copy);
            }
            b = b + 1;
        }
        proof {
            assert(passed.binaries.take(nb as int) =~= passed.binaries);
        }
        self.binaries = kept;
        proof {
            assert(self@ =~= spec_migrate(base));
            lemma_cleanup_wf(passed.binaries, base.aliases);
            lemma_cleanup_sub(passed.binaries, base.aliases);
            let post = self@;
            assert(post.binaries.len() <= passed.binaries.len());
            assert forall|a: int| 0 <= a < post.binaries.len() implies rec_wf(
                #[trigger] post.binaries[a],
            ) by {
                assert(post.binaries[a] == spec_migrate_cleanup(passed.binaries, base.aliases)[a]);
                let j = choose|j: int|
                    0 <= j < passed.binaries.len() && #[trigger] spec_migrate_cleanup(
                        passed.binaries,
                        base.aliases,
                    )[a] == passed.binaries[j];
                assert(rec_wf(passed.binaries[j]));
            }
        }
        m as u64
    }
}

} // verus!
