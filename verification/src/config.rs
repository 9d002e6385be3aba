//! Scan configuration and source definitions: which directories are
//! scanned, which are skipped, which binaries reports ignore, and how a
//! path is attributed to an installation source.

use vstd::prelude::*;

use crate::strutil;
use crate::strutil::{contains_sub, starts_with, ends_with, char_index, lemma_char_index, spec_split};

verus! {

/// A source of installed binaries (a package manager or installation
/// mechanism), with the path pattern that identifies it.
pub struct SourceDef {
    pub name: String,
    pub path: String,
    pub uninstall_cmd: Option<String>,
    pub list_cmd: Option<String>,
}

/// What to scan and what to leave out.
pub struct ScanConfig {
    pub path: bool,
    pub extra_dirs: Vec<String>,
    pub skip_dirs: Vec<String>,
    pub skip_prefixes: Vec<String>,
    pub ignore_binaries: Vec<String>,
}

/// The whole configuration: scan settings plus source definitions.
pub struct Config {
    pub scan: ScanConfig,
    pub sources: Vec<SourceDef>,
}

/// Mathematical model of a source definition.
#[verifier::ext_equal]
pub ghost struct SourceDefV {
    pub name: Seq<char>,
    pub path: Seq<char>,
    pub uninstall_cmd: Option<Seq<char>>,
    pub list_cmd: Option<Seq<char>>,
}

/// Mathematical model of the scan settings.
#[verifier::ext_equal]
pub ghost struct ScanConfigV {
    pub path: bool,
    pub extra_dirs: Seq<Seq<char>>,
    pub skip_dirs: Seq<Seq<char>>,
    pub skip_prefixes: Seq<Seq<char>>,
    pub ignore_binaries: Seq<Seq<char>>,
}

/// Mathematical model of the configuration.
#[verifier::ext_equal]
pub ghost struct ConfigV {
    pub scan: ScanConfigV,
    pub sources: Seq<SourceDefV>,
}

pub open spec fn opt_str_view(o: &Option<String>) -> Option<Seq<char>> {
    match o {
        Some(s) => Some(s@),
        None => None,
    }
}

pub open spec fn views_of(s: Seq<String>) -> Seq<Seq<char>> {
    s.map_values(|x: String| x@)
}

impl View for SourceDef {
    type V = SourceDefV;

    open spec fn view(&self) -> SourceDefV {
        SourceDefV {
            name: self.name@,
            path: self.path@,
            uninstall_cmd: opt_str_view(&self.uninstall_cmd),
            list_cmd: opt_str_view(&self.list_cmd),
        }
    }
}

impl View for ScanConfig {
    type V = ScanConfigV;

    open spec fn view(&self) -> ScanConfigV {
        ScanConfigV {
            path: self.path,
            extra_dirs: views_of(self.extra_dirs@),
            skip_dirs: views_of(self.skip_dirs@),
            skip_prefixes: views_of(self.skip_prefixes@),
            ignore_binaries: views_of(self.ignore_binaries@),
        }
    }
}

impl View for Config {
    type V = ConfigV;

    open spec fn view(&self) -> ConfigV {
        ConfigV { scan: self.scan@, sources: self.sources@.map_values(|s: SourceDef| s@) }
    }
}

pub open spec fn sources_view(s: Seq<SourceDef>) -> Seq<SourceDefV> {
    s.map_values(|x: SourceDef| x@)
}

/// Index of the first source whose path pattern occurs in `path`, or `-1`.
pub open spec fn cat_index(sources: Seq<SourceDefV>, path: Seq<char>) -> int
    decreases sources.len(),
{
    if sources.len() == 0 {
        -1
    } else if contains_sub(path, sources[0].path) {
        0
    } else {
        let r = cat_index(sources.drop_first(), path);
        if r < 0 {
            -1
        } else {
            r + 1
        }
    }
}

pub proof fn lemma_cat_index(sources: Seq<SourceDefV>, path: Seq<char>)
    ensures
        -1 <= cat_index(sources, path) < sources.len(),
        cat_index(sources, path) >= 0 ==> contains_sub(path, sources[cat_index(sources, path)].path)
            && forall|j: int| 0 <= j < cat_index(sources, path) ==> !contains_sub(
            path,
            sources[j].path,
        ),
        cat_index(sources, path) < 0 ==> forall|j: int| 0 <= j < sources.len() ==> !contains_sub(
            path,
            sources[j].path,
        ),
    decreases sources.len(),
{
    if sources.len() > 0 && !contains_sub(path, sources[0].path) {
        let rest = sources.drop_first();
        lemma_cat_index(rest, path);
        let r = cat_index(rest, path);
        if r >= 0 {
            assert(sources[r + 1] == rest[r]);
            assert forall|j: int| 0 <= j < r + 1 implies !contains_sub(path, sources[j].path) by {
                if j > 0 {
                    assert(rest[j - 1] == sources[j]);
                }
            }
        } else {
            assert forall|j: int| 0 <= j < sources.len() implies !contains_sub(
                path,
                sources[j].path,
            ) by {
                if j > 0 {
                    assert(rest[j - 1] == sources[j]);
                }
            }
        }
    }
}

/// Index of the first source with the given name, or `-1`.
pub open spec fn name_index(sources: Seq<SourceDefV>, name: Seq<char>) -> int
    decreases sources.len(),
{
    if sources.len() == 0 {
        -1
    } else if sources[0].name == name {
        0
    } else {
        let r = name_index(sources.drop_first(), name);
        if r < 0 {
            -1
        } else {
            r + 1
        }
    }
}

pub proof fn lemma_name_index(sources: Seq<SourceDefV>, name: Seq<char>)
    ensures
        -1 <= name_index(sources, name) < sources.len(),
        name_index(sources, name) >= 0 ==> sources[name_index(sources, name)].name == name
            && forall|j: int| 0 <= j < name_index(sources, name) ==> sources[j].name != name,
        name_index(sources, name) < 0 ==> forall|j: int|
            0 <= j < sources.len() ==> sources[j].name != name,
    decreases sources.len(),
{
    if sources.len() > 0 && sources[0].name != name {
        let rest = sources.drop_first();
        lemma_name_index(rest, name);
        let r = name_index(rest, name);
        if r >= 0 {
            assert(sources[r + 1] == rest[r]);
            assert forall|j: int| 0 <= j < r + 1 implies sources[j].name != name by {
                if j > 0 {
                    assert(rest[j - 1] == sources[j]);
                }
            }
        } else {
            assert forall|j: int| 0 <= j < sources.len() implies sources[j].name != name by {
                if j > 0 {
                    assert(rest[j - 1] == sources[j]);
                }
            }
        }
    }
}

/// The source name a path is attributed to: the first configured source
/// whose path pattern occurs in the path, or "other".
pub open spec fn spec_categorize(sources: Seq<SourceDefV>, path: Seq<char>) -> Seq<char> {
    let i = cat_index(sources, path);
    if i < 0 {
        "other"@
    } else {
        sources[i].name
    }
}

/// One ignore pattern matches a binary name: an exact match, or, for a
/// pattern holding exactly one `*`, a prefix-and-suffix match.
pub open spec fn spec_ignore_match(pat: Seq<char>, name: Seq<char>) -> bool {
    let k = char_index(pat, '*');
    if k < 0 {
        name == pat
    } else if char_index(pat.subrange(k + 1, pat.len() as int), '*') >= 0 {
        false
    } else {
        starts_with(name, pat.subrange(0, k)) && ends_with(name, pat.subrange(k + 1, pat.len() as int))
    }
}

/// Some ignore pattern matches the name.
pub open spec fn spec_should_ignore(pats: Seq<Seq<char>>, name: Seq<char>) -> bool {
    exists|i: int| 0 <= i < pats.len() && spec_ignore_match(pats[i], name)
}

/// Some configured skip directory is a prefix of `dir`.
pub open spec fn spec_should_skip_dir(skips: Seq<Seq<char>>, dir: Seq<char>) -> bool {
    exists|i: int| 0 <= i < skips.len() && starts_with(dir, skips[i])
}

/// The directories that survive the skip list, in order.
pub open spec fn spec_keep_dirs(dirs: Seq<Seq<char>>, skips: Seq<Seq<char>>) -> Seq<Seq<char>>
    decreases dirs.len(),
{
    if dirs.len() == 0 {
        Seq::empty()
    } else {
        let p = spec_keep_dirs(dirs.drop_last(), skips);
        if !spec_should_skip_dir(skips, dirs.last()) {
            p.push(dirs.last())
        } else {
            p
        }
    }
}

/// The scan directories: the search-path entries (when enabled and given),
/// then the configured extra directories, each filtered by the skip list.
pub open spec fn spec_scan_dirs(cfg: ConfigV, path_var: Option<Seq<char>>) -> Seq<Seq<char>> {
    let from_path = match path_var {
        Some(pv) => if cfg.scan.path {
            spec_keep_dirs(spec_split(pv, ':'), cfg.scan.skip_dirs)
        } else {
            Seq::empty()
        },
        None => Seq::empty(),
    };
    from_path + spec_keep_dirs(cfg.scan.extra_dirs, cfg.scan.skip_dirs)
}

/// The sources that have a list command configured, in order.
pub open spec fn spec_sources_with_list(s: Seq<SourceDefV>) -> Seq<SourceDefV>
    decreases s.len(),
{
    if s.len() == 0 {
        Seq::empty()
    } else {
        let p = spec_sources_with_list(s.drop_last());
        if s.last().list_cmd is Some {
            p.push(s.last())
        } else {
            p
        }
    }
}

impl SourceDef {
    /// A field-for-field copy.
    pub fn duplicate(&self) -> (r: SourceDef)
        ensures
            r@ == self@,
    {
        SourceDef {
            name: self.name.clone(),
            path: self.path.clone(),
            uninstall_cmd: match &self.uninstall_cmd {
                Some(s) => Some(s.clone()),
                None => None,
            },
            list_cmd: match &self.list_cmd {
                Some(s) => Some(s.clone()),
                None => None,
            },
        }
    }
}

impl Config {
    /// The uninstall command configured for a source, if any.
    pub fn get_uninstall_cmd(&self, source_name: &str) -> (r: Option<String>)
        ensures
            ({
                let i = name_index(self@.sources, source_name@);
                opt_str_view(&r) == if i < 0 {
                    None::<Seq<char>>
                } else {
                    self@.sources[i].uninstall_cmd
                }
            }),
    {
        proof {
            lemma_name_index(self@.sources, source_name@);
        }
        let n = self.sources.len();
        let mut k: usize = 0;
        while k < n
            invariant
                0 <= k <= n,
                n == self.sources@.len(),
                forall|j: int| 0 <= j < k ==> self@.sources[j].name != source_name@,
            decreases n - k,
        {
            if strutil::str_eq(self.sources[k].name.as_str(), source_name) {
                assert(self@.sources[k as int].name == source_name@);
                return match &self.sources[k].uninstall_cmd {
                    Some(s) => Some(s.clone()),
                    None => None,
                };
            }
            assert(self@.sources[k as int].name != source_name@);
            k = k + 1;
        }
        None
    }

    /// The list command configured for a source, if any.
    pub fn get_list_cmd(&self, source_name: &str) -> (r: Option<String>)
        ensures
            ({
                let i = name_index(self@.sources, source_name@);
                opt_str_view(&r) == if i < 0 {
                    None::<Seq<char>>
                } else {
                    self@.sources[i].list_cmd
                }
            }),
    {
        proof {
            lemma_name_index(self@.sources, source_name@);
        }
        let n = self.sources.len();
        let mut k: usize = 0;
        while k < n
            invariant
                0 <= k <= n,
                n == self.sources@.len(),
                forall|j: int| 0 <= j < k ==> self@.sources[j].name != source_name@,
            decreases n - k,
        {
            if strutil::str_eq(self.sources[k].name.as_str(), source_name) {
                assert(self@.sources[k as int].name == source_name@);
                return match &self.sources[k].list_cmd {
                    Some(s) => Some(s.clone()),
                    None => None,
                };
            }
            assert(self@.sources[k as int].name != source_name@);
            k = k + 1;
        }
        None
    }

    /// Every source that has a list command configured.
    pub fn get_sources_with_list_cmd(&self) -> (r: Vec<SourceDef>)
        ensures
            sources_view(r@) == spec_sources_with_list(self@.sources),
    {
        let n = self.sources.len();
        let mut out: Vec<SourceDef> = Vec::new();
        let mut k: usize = 0;
        while k < n
            invariant
                0 <= k <= n,
                n == self.sources@.len(),
                sources_view(out@) =~= spec_sources_with_list(self@.sources.take(k as int)),
            decreases n - k,
        {
            proof {
                assert(self@.sources.take(k + 1).drop_last() =~= self@.sources.take(k as int));
                assert(self@.sources.take(k + 1).last() == self@.sources[k as int]);
            }
            if self.sources[k].list_cmd.is_some() {
                let copy = self.sources[k].duplicate();
                out.push(copy);
            }
            k = k + 1;
        }
        proof {
            assert(self@.sources.take(n as int) =~= self@.sources);
        }
        out
    }

    /// Attribute a path to a source by the first matching path pattern,
    /// falling back to "other".
    pub fn categorize_path(&self, path: &str) -> (r: String)
        ensures
            r@ == spec_categorize(self@.sources, path@),
    {
        proof {
            lemma_cat_index(self@.sources, path@);
        }
        let n = self.sources.len();
        let mut k: usize = 0;
        while k < n
            invariant
                0 <= k <= n,
                n == self.sources@.len(),
                forall|j: int| 0 <= j < k ==> !contains_sub(path@, self@.sources[j].path),
            decreases n - k,
        {
            if strutil::str_contains(path, self.sources[k].path.as_str()) {
                assert(contains_sub(path@, self@.sources[k as int].path));
                return self.sources[k].name.clone();
            }
            assert(!contains_sub(path@, self@.sources[k as int].path));
            k = k + 1;
        }
        strutil::copy_str("other")
    }

    /// Whether a directory is excluded from scanning.
    pub fn should_skip_dir(&self, dir: &str) -> (r: bool)
        ensures
            r == spec_should_skip_dir(self@.scan.skip_dirs, dir@),
    {
        let n = self.scan.skip_dirs.len();
        let mut k: usize = 0;
        while k < n
            invariant
                0 <= k <= n,
                n == self.scan.skip_dirs@.len(),
                forall|j: int| 0 <= j < k ==> !starts_with(dir@, self@.scan.skip_dirs[j]),
            decreases n - k,
        {
            if strutil::str_starts_with(dir, self.scan.skip_dirs[k].as_str()) {
                assert(starts_with(dir@, self@.scan.skip_dirs[k as int]));
                return true;
            }
            assert(!starts_with(dir@, self@.scan.skip_dirs[k as int]));
            k = k + 1;
        }
        false
    }

    /// Whether a binary name is ignored in reports: an exact ignore entry,
    /// or a one-star pattern matching by prefix and suffix.
    pub fn should_ignore_binary(&self, binary_name: &str) -> (r: bool)
        ensures
            r == spec_should_ignore(self@.scan.ignore_binaries, binary_name@),
    {
        let n = self.scan.ignore_binaries.len();
        let mut k: usize = 0;
        while k < n
            invariant
                0 <= k <= n,
                n == self.scan.ignore_binaries@.len(),
                forall|j: int| 0 <= j < k ==> !spec_ignore_match(
                    self@.scan.ignore_binaries[j],
                    binary_name@,
                ),
            decreases n - k,
        {
            if ignore_match(&self.scan.ignore_binaries[k], binary_name) {
                assert(spec_ignore_match(self@.scan.ignore_binaries[k as int], binary_name@));
                return true;
            }
            k = k + 1;
        }
        false
    }

    /// The directories to scan, from the search-path variable's entries and
    /// the configured extra directories, without the skipped ones.
    pub fn get_scan_dirs(&self, path_var: Option<&str>) -> (r: Vec<String>)
        ensures
            views_of(r@) == spec_scan_dirs(
                self@,
                match path_var {
                    Some(pv) => Some(pv@),
                    None => None,
                },
            ),
    {
        let ghost pv_v: Option<Seq<char>> = match path_var {
            Some(pv) => Some(pv@),
            None => None,
        };
        let mut out: Vec<String> = Vec::new();
        match path_var {
            Some(pv) => {
                if self.scan.path {
                    let entries = strutil::split_char(pv, ':');
                    let m = entries.len();
                    let mut i: usize = 0;
                    while i < m
                        invariant
                            0 <= i <= m,
                            m == entries@.len(),
                            views_of(entries@) == spec_split(pv@, ':'),
                            views_of(out@) =~= spec_keep_dirs(
                                views_of(entries@).take(i as int),
                                self@.scan.skip_dirs,
                            ),
                        decreases m - i,
                    {
                        proof {
                            assert(views_of(entries@).take(i + 1).drop_last() =~= views_of(
                                entries@,
                            ).take(i as int));
                            assert(views_of(entries@).take(i + 1).last() == entries@[i as int]@);
                        }
                        if !self.should_skip_dir(entries[i].as_str()) {
                            let copy = entries[i].clone();
                            out.push(copy);
                        }
                        i = i + 1;
                    }
                    proof {
                        assert(views_of(entries@).take(m as int) =~= views_of(entries@));
                    }
                }
            },
            None => {},
        }
        proof {
            let from_path = match pv_v {
                Some(pv) => if self@.scan.path {
                    spec_keep_dirs(spec_split(pv, ':'), self@.scan.skip_dirs)
                } else {
                    Seq::<Seq<char>>::empty()
                },
                None => Seq::<Seq<char>>::empty(),
            };
            assert(views_of(out@) =~= from_path);
        }
        let ghost mid = views_of(out@);
        let m = self.scan.extra_dirs.len();
        let mut i: usize = 0;
        while i < m
            invariant
                0 <= i <= m,
                m == self.scan.extra_dirs@.len(),
                views_of(out@) =~= mid + spec_keep_dirs(
                    self@.scan.extra_dirs.take(i as int),
                    self@.scan.skip_dirs,
                ),
            decreases m - i,
        {
            proof {
                assert(self@.scan.extra_dirs.take(i + 1).drop_last() =~= self@.scan.extra_dirs.take(
                    i as int,
                ));
                assert(self@.scan.extra_dirs.take(i + 1).last() == self@.scan.extra_dirs[i as int]);
            }
            if !self.should_skip_dir(self.scan.extra_dirs[i].as_str()) {
                let copy = self.scan.extra_dirs[i].clone();
                out.push(copy);
            }
            proof {
                let d = self@.scan.extra_dirs[i as int];
                let skips = self@.scan.skip_dirs;
                let prevv = mid + spec_keep_dirs(self@.scan.extra_dirs.take(i as int), skips);
                assert(spec_keep_dirs(self@.scan.extra_dirs.take(i + 1), skips) == if !spec_should_skip_dir(skips, d) {
                    spec_keep_dirs(self@.scan.extra_dirs.take(i as int), skips).push(d)
                } else {
                    spec_keep_dirs(self@.scan.extra_dirs.take(i as int), skips)
                });
                if !spec_should_skip_dir(skips, d) {
                    assert(views_of(out@) =~= prevv.push(d));
                    assert(prevv.push(d) =~= mid + spec_keep_dirs(
                        self@.scan.extra_dirs.take(i + 1),
                        skips,
                    ));
                } else {
                    assert(views_of(out@) =~= mid + spec_keep_dirs(
                        self@.scan.extra_dirs.take(i + 1),
                        skips,
                    ));
                }
            }
            i = i + 1;
        }
        proof {
            assert(self@.scan.extra_dirs.take(m as int) =~= self@.scan.extra_dirs);
            assert(views_of(out@) =~= spec_scan_dirs(self@, pv_v));
        }
        out
    }
}

/// Whether one ignore pattern matches a binary name.
fn ignore_match(pat: &String, name: &str) -> (r: bool)
    ensures
        r == spec_ignore_match(pat@, name@),
{
    proof {
        lemma_char_index(pat@, '*');
    }
    let pat_len = pat.as_str().unicode_len();
    match strutil::find_char_from(pat.as_str(), '*', 0) {
        None => {
            proof {
                assert(char_index(pat@, '*') < 0);
            }
            strutil::str_eq(name, pat.as_str())
        },
        Some(k) => {
            proof {
                let fw = char_index(pat@, '*');
                assert(pat@[k as int] == '*');
                if fw < k {
                    assert(pat@[fw] == '*');
                }
                assert(fw == k);
            }
            let suffix = pat.as_str().substring_char(k + 1, pat_len);
            proof {
                lemma_char_index(suffix@, '*');
            }
            match strutil::find_char_from(suffix, '*', 0) {
                Some(j) => {
                    proof {
                        assert(suffix@[j as int] == '*');
                        assert(char_index(pat@.subrange(k + 1, pat@.len() as int), '*') >= 0);
                    }
                    false
                },
                None => {
                    proof {
                        assert(char_index(suffix@, '*') < 0);
                    }
                    let prefix = pat.as_str().substring_char(0, k);
                    let sw = strutil::str_starts_with(name, prefix);
                    let ew = strutil::str_ends_with(name, suffix);
                    sw && ew
                },
            }
        },
    }
}

/// The built-in directories that scanning always skips.
pub fn default_skip_dirs() -> (r: Vec<String>)
    ensures
        views_of(r@) =~= seq!["/usr/bin"@, "/usr/sbin"@, "/bin"@, "/sbin"@],
{
    let mut v: Vec<String> = Vec::new();
    v.push(strutil::copy_str("/usr/bin"));
    v.push(strutil::copy_str("/usr/sbin"));
    v.push(strutil::copy_str("/bin"));
    v.push(strutil::copy_str("/sbin"));
    v
}

/// The built-in path prefixes whose binaries are not tracked.
pub fn default_skip_prefixes() -> (r: Vec<String>)
    ensures
        views_of(r@) =~= seq!["/usr/libexec/"@, "/usr/lib/"@],
{
    let mut v: Vec<String> = Vec::new();
    v.push(strutil::copy_str("/usr/libexec/"));
    v.push(strutil::copy_str("/usr/lib/"));
    v
}

impl Default for ScanConfig {
    /// Scan the search path, with the built-in skip lists and nothing
    /// ignored.
    fn default() -> (r: ScanConfig)
        ensures
            r@.path == true,
            r@.extra_dirs =~= Seq::<Seq<char>>::empty(),
            r@.skip_dirs =~= seq!["/usr/bin"@, "/usr/sbin"@, "/bin"@, "/sbin"@],
            r@.skip_prefixes =~= seq!["/usr/libexec/"@, "/usr/lib/"@],
            r@.ignore_binaries =~= Seq::<Seq<char>>::empty(),
    {
        ScanConfig {
            path: true,
            extra_dirs: Vec::new(),
            skip_dirs: default_skip_dirs(),
            skip_prefixes: default_skip_prefixes(),
            ignore_binaries: Vec::new(),
        }
    }
}

impl Default for Config {
    /// The default scan settings and no source definitions.
    fn default() -> (r: Config)
        ensures
            r@.scan.path == true,
            r@.scan.extra_dirs =~= Seq::<Seq<char>>::empty(),
            r@.scan.skip_dirs =~= seq!["/usr/bin"@, "/usr/sbin"@, "/bin"@, "/sbin"@],
            r@.scan.skip_prefixes =~= seq!["/usr/libexec/"@, "/usr/lib/"@],
            r@.scan.ignore_binaries =~= Seq::<Seq<char>>::empty(),
            r@.sources =~= Seq::<SourceDefV>::empty(),
    {
        Config { scan: ScanConfig::default(), sources: Vec::new() }
    }
}

} // verus!
