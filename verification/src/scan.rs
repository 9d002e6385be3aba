//! Filesystem-scan classification: package-name guessing, source
//! refinement, tilde expansion, and the parsing of audit-stream lines.
//!
//! The enumeration of directories is the caller's; every decision about an
//! entry — what package and source it belongs to, whether a reported exec
//! path is tracked — is made here.

use vstd::prelude::*;

use crate::strutil;
use crate::strutil::{
    contains_sub, starts_with, char_index, lemma_char_index, sub_index, lemma_sub_index,
    last_char_index, lemma_last_char_index, spec_trim,
};

verus! {

/// Tilde expansion: `~/rest` becomes `home/rest`, a bare `~` becomes
/// `home`, anything else is unchanged.
pub open spec fn spec_expand_tilde(p: Seq<char>, home: Seq<char>) -> Seq<char> {
    if p.len() >= 2 && p[0] == '~' && p[1] == '/' {
        home + p.subrange(1, p.len() as int)
    } else if p.len() == 1 && p[0] == '~' {
        home
    } else {
        p
    }
}

/// Expand a leading `~` to the home directory.
pub fn expand_tilde(path: &str, home: &str) -> (r: String)
    ensures
        r@ == spec_expand_tilde(path@, home@),
{
    let n = path.unicode_len();
    if n >= 2 {
        if path.get_char(0) == '~' && path.get_char(1) == '/' {
            let mut out = strutil::copy_str(home);
            let rest = path.substring_char(1, n);
            out.append(rest);
            return out;
        }
    }
    if n == 1 {
        if path.get_char(0) == '~' {
            return strutil::copy_str(home);
        }
    }
    strutil::copy_str(path)
}

/// The package name taken from a package-store path: the segment between
/// the first `Cellar/` and the next slash (or the end), when it is
/// non-empty.
pub open spec fn spec_extract_cellar(p: Seq<char>) -> Option<Seq<char>> {
    let k = sub_index(p, "Cellar/"@);
    if k < 0 {
        None
    } else {
        let rest = p.subrange(k + "Cellar/"@.len(), p.len() as int);
        let e = char_index(rest, '/');
        let pkg = if e < 0 {
            rest
        } else {
            rest.subrange(0, e)
        };
        if pkg.len() == 0 {
            None
        } else {
            Some(pkg)
        }
    }
}

pub open spec fn opt_string_view(o: &Option<String>) -> Option<Seq<char>> {
    match o {
        Some(s) => Some(s@),
        None => None,
    }
}

/// Extract a package name from a `Cellar/<name>/...` path segment.
pub fn extract_cellar_package(path: &str) -> (r: Option<String>)
    ensures
        opt_string_view(&r) == spec_extract_cellar(path@),
{
    proof {
        lemma_sub_index(path@, "Cellar/"@);
        reveal_strlit("Cellar/");
    }
    match strutil::find_sub_index(path, "Cellar/") {
        None => None,
        Some(k) => {
            let n = path.unicode_len();
            assert(k + 7 <= n);
            let rest = path.substring_char(k + 7, n);
            proof {
                lemma_char_index(rest@, '/');
            }
            let pkg: String = match strutil::find_char_from(rest, '/', 0) {
                None => {
                    proof {
                        assert(char_index(rest@, '/') < 0);
                    }
                    strutil::copy_str(rest)
                },
                Some(e) => {
                    proof {
                        let ci = char_index(rest@, '/');
                        assert(rest@[e as int] == '/');
                        if ci < e {
                            assert(rest@[ci] == '/');
                        }
                        assert(ci == e);
                    }
                    strutil::substring(rest, 0, e)
                },
            };
            if pkg.as_str().unicode_len() == 0 {
                None
            } else {
                Some(pkg)
            }
        },
    }
}

/// The package-name guess for an anchored install root: for the first
/// anchor that prefixes the path and is followed by a further slash, the
/// segment between the anchor and that slash.
pub open spec fn spec_anchor_package(anchors: Seq<Seq<char>>, p: Seq<char>) -> Option<Seq<char>>
    decreases anchors.len(),
{
    if anchors.len() == 0 {
        None
    } else {
        let a = anchors[0];
        if starts_with(p, a) {
            let rest = p.subrange(a.len() as int, p.len() as int);
            let e = char_index(rest, '/');
            if e > 0 {
                Some(rest.subrange(0, e))
            } else {
                spec_anchor_package(anchors.drop_first(), p)
            }
        } else {
            spec_anchor_package(anchors.drop_first(), p)
        }
    }
}

/// The install-root anchors, with `~` expanded to the home directory:
/// `/opt/`, `/usr/local/` and `home/`.
pub fn install_root_anchors(home: &str) -> (r: Vec<String>)
    ensures
        r@.map_values(|x: String| x@) =~= seq![
            "/opt/"@,
            "/usr/local/"@,
            spec_expand_tilde("~/"@, home@),
        ],
{
    let mut v: Vec<String> = Vec::new();
    v.push(strutil::copy_str("/opt/"));
    v.push(strutil::copy_str("/usr/local/"));
    proof {
        reveal_strlit("~/");
    }
    v.push(expand_tilde("~/", home));
    v
}

/// One anchor step of the package-name guess.
fn anchor_package_at(anchor: &String, path: &str) -> (r: Option<String>)
    ensures
        ({
            let a = anchor@;
            let p = path@;
            match r {
                Some(s) => starts_with(p, a) && ({
                    let rest = p.subrange(a.len() as int, p.len() as int);
                    char_index(rest, '/') > 0 && s@ == rest.subrange(0, char_index(rest, '/'))
                }),
                None => !starts_with(p, a) || ({
                    let rest = p.subrange(a.len() as int, p.len() as int);
                    char_index(rest, '/') <= 0
                }),
            }
        }),
{
    if !strutil::str_starts_with(path, anchor.as_str()) {
        return None;
    }
    let n = path.unicode_len();
    let alen = anchor.as_str().unicode_len();
    let rest = path.substring_char(alen, n);
    proof {
        lemma_char_index(rest@, '/');
    }
    match strutil::find_char_from(rest, '/', 0) {
        None => {
            proof {
                assert(char_index(rest@, '/') < 0);
            }
            None
        },
        Some(e) => {
            proof {
                let ci = char_index(rest@, '/');
                assert(rest@[e as int] == '/');
                if ci < e {
                    assert(rest@[ci] == '/');
                }
                assert(ci == e);
            }
            if e == 0 {
                None
            } else {
                Some(strutil::substring(rest, 0, e))
            }
        },
    }
}

/// The full package-name guess for a binary: a `Cellar/` segment of the
/// symlink target, else one of the path itself, else the first path
/// segment under a known install-root anchor, else the binary's own name.
pub open spec fn spec_package_name(
    p: Seq<char>,
    link_target: Option<Seq<char>>,
    default_name: Seq<char>,
    home: Seq<char>,
) -> Seq<char> {
    let from_link = match link_target {
        Some(t) => spec_extract_cellar(t),
        None => None,
    };
    match from_link {
        Some(pkg) => pkg,
        None => match spec_extract_cellar(p) {
            Some(pkg) => pkg,
            None => {
                let anchors = seq!["/opt/"@, "/usr/local/"@, spec_expand_tilde("~/"@, home)];
                match spec_anchor_package(anchors, p) {
                    Some(pkg) => pkg,
                    None => default_name,
                }
            },
        },
    }
}

/// Guess the package a binary belongs to.
pub fn get_package_name(
    path: &str,
    link_target: Option<&str>,
    default_name: &str,
    home: &str,
) -> (r: String)
    ensures
        r@ == spec_package_name(
            path@,
            match link_target {
                Some(t) => Some(t@),
                None => None,
            },
            default_name@,
            home@,
        ),
{
    match link_target {
        Some(t) => {
            match extract_cellar_package(t) {
                Some(pkg) => {
                    return pkg;
                },
                None => {},
            }
        },
        None => {},
    }
    match extract_cellar_package(path) {
        Some(pkg) => {
            return pkg;
        },
        None => {},
    }
    let anchors = install_root_anchors(home);
    let ghost anchors_v = seq!["/opt/"@, "/usr/local/"@, spec_expand_tilde("~/"@, home@)];
    proof {
        assert(anchors_v.subrange(0, anchors_v.len() as int) =~= anchors_v);
    }
    let n = anchors.len();
    let mut i: usize = 0;
    while i < n
        invariant
            0 <= i <= n,
            n == anchors@.len(),
            anchors@.map_values(|x: String| x@) =~= anchors_v,
            spec_anchor_package(anchors_v, path@) == spec_anchor_package(
                anchors_v.subrange(i as int, anchors_v.len() as int),
                path@,
            ),
        decreases n - i,
    {
        let ghost tail = anchors_v.subrange(i as int, anchors_v.len() as int);
        proof {
            assert(tail[0] == anchors_v[i as int]);
            assert(tail.drop_first() =~= anchors_v.subrange(i + 1, anchors_v.len() as int));
        }
        match anchor_package_at(&anchors[i], path) {
            Some(pkg) => {
                return pkg;
            },
            None => {
                proof {
                    assert(anchors@[i as int]@ == tail[0]);
                    assert(spec_anchor_package(tail, path@) == spec_anchor_package(
                        tail.drop_first(),
                        path@,
                    ));
                }
            },
        }
        i = i + 1;
    }
    proof {
        assert(anchors_v.subrange(n as int, anchors_v.len() as int).len() == 0);
    }
    strutil::copy_str(default_name)
}

/// The characters after the last slash: the file's own name.
pub open spec fn spec_base_name(p: Seq<char>) -> Seq<char> {
    let k = last_char_index(p, '/');
    if k < 0 {
        p
    } else {
        p.subrange(k + 1, p.len() as int)
    }
}

/// The file name of a path: everything after the last slash.
pub fn base_name(path: &str) -> (r: String)
    ensures
        r@ == spec_base_name(path@),
{
    proof {
        lemma_last_char_index(path@, '/');
    }
    let n = path.unicode_len();
    match strutil::rfind_char(path, '/') {
        None => {
            proof {
                assert(last_char_index(path@, '/') < 0);
            }
            strutil::copy_str(path)
        },
        Some(k) => {
            proof {
                let li = last_char_index(path@, '/');
                assert(path@[k as int] == '/');
                if li > k {
                    assert(path@[li] == '/');
                }
                assert(li == k);
            }
            strutil::substring(path, k + 1, n)
        },
    }
}

/// The source refined by the symlink target: node-module shims become
/// `npm`, cask shims become `cask`, anything else keeps the directory's
/// source.
pub open spec fn spec_refine_source(
    link_target: Option<Seq<char>>,
    source: Seq<char>,
) -> Seq<char> {
    match link_target {
        Some(t) => if contains_sub(t, "node_modules/"@) {
            "npm"@
        } else if contains_sub(t, "Caskroom/"@) {
            "cask"@
        } else {
            source
        },
        None => source,
    }
}

/// Refine a scan entry's source using its symlink target.
pub fn refine_source(link_target: Option<&str>, source: &str) -> (r: String)
    ensures
        r@ == spec_refine_source(
            match link_target {
                Some(t) => Some(t@),
                None => None,
            },
            source@,
        ),
{
    match link_target {
        Some(t) => {
            if strutil::str_contains(t, "node_modules/") {
                strutil::copy_str("npm")
            } else if strutil::str_contains(t, "Caskroom/") {
                strutil::copy_str("cask")
            } else {
                strutil::copy_str(source)
            }
        },
        None => strutil::copy_str(source),
    }
}

/// Whether a file mode has any execute bit set.
pub fn mode_is_executable(mode: u32) -> (r: bool)
    ensures
        r == (mode & 0o111 != 0),
{
    mode & 0o111 != 0
}

/// A path the audit stream reports that looks like a tracked executable:
/// one under a `bin` directory.
pub open spec fn spec_is_binary_path(p: Seq<char>) -> bool {
    ||| contains_sub(p, "/bin/"@)
    ||| contains_sub(p, "/.cargo/bin/"@)
    ||| contains_sub(p, "/.local/bin/"@)
    ||| contains_sub(p, "/go/bin/"@)
}

/// Whether a reported path looks like an executable binary worth tracking.
pub fn is_binary_path(path: &str) -> (r: bool)
    ensures
        r == spec_is_binary_path(path@),
{
    strutil::str_contains(path, "/bin/") || strutil::str_contains(path, "/.cargo/bin/")
        || strutil::str_contains(path, "/.local/bin/") || strutil::str_contains(path, "/go/bin/")
}

/// The character positions of the first three spaces of `s`, if present:
/// the audit line's timestamp, process and event fields end there.
pub open spec fn spec_fatrace_path(line: Seq<char>) -> Option<Seq<char>> {
    let a = char_index(line, ' ');
    if a < 0 {
        None
    } else {
        let r1 = line.subrange(a + 1, line.len() as int);
        let b = char_index(r1, ' ');
        if b < 0 {
            None
        } else {
            let r2 = r1.subrange(b + 1, r1.len() as int);
            let c = char_index(r2, ' ');
            if c < 0 {
                None
            } else {
                let raw = r2.subrange(c + 1, r2.len() as int);
                let path = spec_trim(raw);
                if spec_is_binary_path(path) {
                    Some(path)
                } else {
                    None
                }
            }
        }
    }
}

/// The first space of `s`, tied to `char_index`.
fn find_space(s: &str) -> (r: Option<usize>)
    ensures
        ({
            let k = char_index(s@, ' ');
            match r {
                Some(i) => i == k && i < s@.len(),
                None => k < 0,
            }
        }),
{
    proof {
        lemma_char_index(s@, ' ');
    }
    match strutil::find_char_from(s, ' ', 0) {
        None => {
            proof {
                assert(char_index(s@, ' ') < 0);
            }
            None
        },
        Some(i) => {
            proof {
                let k = char_index(s@, ' ');
                assert(s@[i as int] == ' ');
                if k < i {
                    assert(s@[k] == ' ');
                }
                assert(k == i);
            }
            Some(i)
        },
    }
}

/// Parse one line of the audit stream: the field after the third space,
/// trimmed, kept only when it looks like a tracked executable path.
pub fn parse_fatrace_line(line: &str) -> (r: Option<String>)
    ensures
        opt_string_view(&r) == spec_fatrace_path(line@),
{
    let n0 = line.unicode_len();
    let a = match find_space(line) {
        None => {
            return None;
        },
        Some(a) => a,
    };
    let r1 = line.substring_char(a + 1, n0);
    let n1 = r1.unicode_len();
    let b = match find_space(r1) {
        None => {
            return None;
        },
        Some(b) => b,
    };
    let r2 = r1.substring_char(b + 1, n1);
    let n2 = r2.unicode_len();
    let c = match find_space(r2) {
        None => {
            return None;
        },
        Some(c) => c,
    };
    let raw = r2.substring_char(c + 1, n2);
    let path = strutil::trim_spaces(raw);
    if is_binary_path(path.as_str()) {
        Some(path)
    } else {
        None
    }
}

/// A path the daemon never records: system shims and shells whose
/// executions say nothing about package use.
pub open spec fn spec_should_skip_path(p: Seq<char>) -> bool {
    ||| starts_with(p, "/usr/libexec/"@)
    ||| starts_with(p, "/System/"@)
    ||| starts_with(p, "/Library/Apple/"@)
    ||| starts_with(p, "/usr/sbin/"@)
    ||| p == "/bin/sh"@
    ||| p == "/bin/bash"@
    ||| p == "/bin/zsh"@
    ||| p == "/usr/bin/env"@
}

/// Whether the daemon should ignore an exec event for this path.
pub fn should_skip_path(path: &str) -> (r: bool)
    ensures
        r == spec_should_skip_path(path@),
{
    strutil::str_starts_with(path, "/usr/libexec/") || strutil::str_starts_with(path, "/System/")
        || strutil::str_starts_with(path, "/Library/Apple/") || strutil::str_starts_with(
        path,
        "/usr/sbin/",
    ) || strutil::str_eq(path, "/bin/sh") || strutil::str_eq(path, "/bin/bash") || strutil::str_eq(
        path,
        "/bin/zsh",
    ) || strutil::str_eq(path, "/usr/bin/env")
}

/// One executable found by a filesystem scan: its path, the package and
/// source guesses, and the resolved symlink target when it differs from
/// the entry path.
pub struct ScanEntry {
    pub path: String,
    pub package_name: String,
    pub source: String,
    pub resolved: Option<String>,
}

/// Mathematical model of a scan entry.
#[verifier::ext_equal]
pub ghost struct ScanEntryV {
    pub path: Seq<char>,
    pub package_name: Seq<char>,
    pub source: Seq<char>,
    pub resolved: Option<Seq<char>>,
}

impl View for ScanEntry {
    type V = ScanEntryV;

    open spec fn view(&self) -> ScanEntryV {
        ScanEntryV {
            path: self.path@,
            package_name: self.package_name@,
            source: self.source@,
            resolved: match &self.resolved {
                Some(s) => Some(s@),
                None => None,
            },
        }
    }
}

pub open spec fn entries_view(s: Seq<ScanEntry>) -> Seq<ScanEntryV> {
    s.map_values(|e: ScanEntry| e@)
}

} // verus!
