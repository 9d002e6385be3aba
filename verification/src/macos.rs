//! macOS platform logic: parsing the dynamic-dependency tool's output,
//! resolving homebrew library paths to packages, and generating the
//! launchd property list.

use vstd::prelude::*;

use crate::strutil;
use crate::strutil::{
    starts_with, spec_trim, sub_index, lemma_sub_index, spec_split,
};
use crate::ledger::strs_view;

verus! {

/// The library path one line of the dependency tool's output yields:
/// everything before the compatibility note, trimmed; system libraries and
/// loader-relative entries are dropped.
pub open spec fn spec_otool_line(line: Seq<char>) -> Option<Seq<char>> {
    let t = spec_trim(line);
    let p = sub_index(t, " (compatibility"@);
    let path = spec_trim(
        if p < 0 {
            t
        } else {
            t.subrange(0, p)
        },
    );
    if path.len() == 0 {
        None
    } else if starts_with(path, "/usr/lib/"@) || starts_with(path, "/System/"@) || starts_with(
        path,
        "/Library/Apple/"@,
    ) {
        None
    } else if path.len() > 0 && path[0] == '@' {
        None
    } else {
        Some(path)
    }
}

/// The library paths of a whole dependency-tool output: every line after
/// the header, in order.
pub open spec fn spec_parse_otool(lines: Seq<Seq<char>>) -> Seq<Seq<char>>
    decreases lines.len(),
{
    if lines.len() == 0 {
        Seq::empty()
    } else {
        let p = spec_parse_otool(lines.drop_last());
        match spec_otool_line(lines.last()) {
            Some(path) => p.push(path),
            None => p,
        }
    }
}

/// Parse one line of the dependency tool's output.
fn parse_otool_line(line: &str) -> (r: Option<String>)
    ensures
        crate::scan::opt_string_view(&r) == spec_otool_line(line@),
{
    let t = strutil::trim_spaces(line);
    proof {
        lemma_sub_index(t@, " (compatibility"@);
        reveal_strlit(" (compatibility");
    }
    let path_raw: String = match strutil::find_sub_index(t.as_str(), " (compatibility") {
        None => t,
        Some(p) => strutil::substring(t.as_str(), 0, p),
    };
    let path = strutil::trim_spaces(path_raw.as_str());
    if path.as_str().unicode_len() == 0 {
        return None;
    }
    if strutil::str_starts_with(path.as_str(), "/usr/lib/") || strutil::str_starts_with(
        path.as_str(),
        "/System/",
    ) || strutil::str_starts_with(path.as_str(), "/Library/Apple/") {
        return None;
    }
    if path.as_str().get_char(0) == '@' {
        return None;
    }
    Some(path)
}

/// Parse the dependency tool's output into library paths, skipping its
/// header line and the always-present system libraries.
pub fn parse_otool_output(output: &str) -> (r: Vec<String>)
    ensures
        ({
            let lines = spec_split(output@, '\n');
            strs_view(r@) == spec_parse_otool(lines.subrange(1, lines.len() as int))
        }),
{
    let lines = strutil::split_char(output, '\n');
    let ghost lv = lines@.map_values(|x: String| x@);
    let ghost body = lv.subrange(1, lv.len() as int);
    let n = lines.len();
    let mut out: Vec<String> = Vec::new();
    assert(n >= 1) by {
        assert(lv.len() >= 1) by {
            crate::strutil::lemma_char_index(output@, '\n');
        }
    }
    let mut i: usize = 1;
    while i < n
        invariant
            1 <= i <= n,
            n == lines@.len(),
            lv == lines@.map_values(|x: String| x@),
            lv == spec_split(output@, '\n'),
            body == lv.subrange(1, lv.len() as int),
            strs_view(out@) =~= spec_parse_otool(body.take(i - 1)),
        decreases n - i,
    {
        proof {
            assert(body.take(i as int).drop_last() =~= body.take(i - 1));
            assert(body.take(i as int).last() == body[i - 1]);
            assert(body[i - 1] == lv[i as int]);
            assert(lv[i as int] == lines@[i as int]@);
        }
        match parse_otool_line(lines[i].as_str()) {
            Some(path) => {
                out.push(path);
            },
            None => {},
        }
        i = i + 1;
    }
    proof {
        assert(body.take(n - 1) =~= body);
    }
    out
}

/// The homebrew package owning a library path: the first path segment
/// under a homebrew prefix.
pub open spec fn spec_homebrew_package(p: Seq<char>) -> Option<Seq<char>> {
    let prefixes = seq![
        "/opt/homebrew/opt/"@,
        "/opt/homebrew/Cellar/"@,
        "/usr/local/opt/"@,
        "/usr/local/Cellar/"@,
    ];
    spec_homebrew_from(prefixes, p)
}

pub open spec fn spec_homebrew_from(prefixes: Seq<Seq<char>>, p: Seq<char>) -> Option<Seq<char>>
    decreases prefixes.len(),
{
    if prefixes.len() == 0 {
        None
    } else if starts_with(p, prefixes[0]) {
        let rest = p.subrange(prefixes[0].len() as int, p.len() as int);
        let e = crate::strutil::char_index(rest, '/');
        if e < 0 {
            Some(rest)
        } else {
            Some(rest.subrange(0, e))
        }
    } else {
        spec_homebrew_from(prefixes.drop_first(), p)
    }
}

/// Extract the homebrew package name from a library path, when it lies
/// under a homebrew prefix.
pub fn extract_homebrew_package(path: &str) -> (r: Option<String>)
    ensures
        crate::scan::opt_string_view(&r) == spec_homebrew_package(path@),
{
    let mut prefixes: Vec<String> = Vec::new();
    prefixes.push(strutil::copy_str("/opt/homebrew/opt/"));
    prefixes.push(strutil::copy_str("/opt/homebrew/Cellar/"));
    prefixes.push(strutil::copy_str("/usr/local/opt/"));
    prefixes.push(strutil::copy_str("/usr/local/Cellar/"));
    let ghost pv = seq![
        "/opt/homebrew/opt/"@,
        "/opt/homebrew/Cellar/"@,
        "/usr/local/opt/"@,
        "/usr/local/Cellar/"@,
    ];
    proof {
        assert(strs_view(prefixes@) =~= pv);
        assert(pv.subrange(0, pv.len() as int) =~= pv);
    }
    let n = prefixes.len();
    let mut i: usize = 0;
    while i < n
        invariant
            0 <= i <= n,
            n == prefixes@.len(),
            strs_view(prefixes@) == pv,
            spec_homebrew_package(path@) == spec_homebrew_from(
                pv.subrange(i as int, pv.len() as int),
                path@,
            ),
        decreases n - i,
    {
        let ghost tail = pv.subrange(i as int, pv.len() as int);
        proof {
            assert(tail[0] == pv[i as int]);
            assert(tail.drop_first() =~= pv.subrange(i + 1, pv.len() as int));
        }
        if strutil::str_starts_with(path, prefixes[i].as_str()) {
            let plen = prefixes[i].as_str().unicode_len();
            let n_path = path.unicode_len();
            let rest = path.substring_char(plen, n_path);
            proof {
                crate::strutil::lemma_char_index(rest@, '/');
            }
            return match strutil::find_char_from(rest, '/', 0) {
                None => {
                    proof {
                        assert(crate::strutil::char_index(rest@, '/') < 0);
                    }
                    Some(rest.to_owned())
                },
                Some(e) => {
                    proof {
                        let ci = crate::strutil::char_index(rest@, '/');
                        assert(rest@[e as int] == '/');
                        if ci < e {
                            assert(rest@[ci] == '/');
                        }
                        assert(ci == e);
                    }
                    Some(strutil::substring(rest, 0, e))
                },
            };
        }
        i = i + 1;
    }
    proof {
        assert(pv.subrange(n as int, pv.len() as int).len() == 0);
    }
    None
}

/// The disk-usage size of a package directory: the first field of the
/// tool's output is kilobytes; the value in bytes, saturating at the
/// ceiling.
pub open spec fn spec_du_size(output: Seq<char>) -> Option<int> {
    let parts = crate::linux::spec_fields(spec_split(crate::linux::spec_norm_ws(output), ' '));
    if parts.len() == 0 {
        None
    } else {
        match crate::linux::spec_parse_u64(parts[0]) {
            None => None,
            Some(kb) => if kb * 1024 > u64::MAX {
                Some(u64::MAX as int)
            } else {
                Some(kb * 1024)
            },
        }
    }
}

/// Parse the kilobyte count from a disk-usage query into bytes.
pub fn parse_du_size(output: &str) -> (r: Option<u64>)
    ensures
        crate::deps::opt_u64_view(r) == spec_du_size(output@),
{
    let parts = crate::linux::fields_of(output);
    if parts.len() == 0 {
        return None;
    }
    proof {
        assert(strs_view(parts@)[0] == parts@[0]@);
    }
    match crate::linux::parse_u64(parts[0].as_str()) {
        None => None,
        Some(kb) => {
            if kb > u64::MAX / 1024 {
                Some(u64::MAX)
            } else {
                Some(kb * 1024)
            }
        },
    }
}

/// The macOS service-file generators.
pub struct Daemon;

impl Daemon {
    /// Where the launch daemon's property list lives.
    pub fn plist_path() -> (r: String)
        ensures
            r@ == "/Library/LaunchDaemons/com.dusty.daemon.plist"@,
    {
        strutil::copy_str("/Library/LaunchDaemons/com.dusty.daemon.plist")
    }

    /// Where the daemon's logs live.
    pub fn log_dir() -> (r: String)
        ensures
            r@ == "/var/log/dusty"@,
    {
        strutil::copy_str("/var/log/dusty")
    }

    /// The launchd property list that keeps the daemon running, with the
    /// caller's home directory exported so the store resolves to the real
    /// user's paths.
    pub fn generate_plist(exe_path: &str, home: &str) -> (r: String)
        ensures
            r@ == "<?xml version=\"1.0\" encoding=\"UTF-8\"?>\n<!DOCTYPE plist PUBLIC \"-//Apple//DTD PLIST 1.0//EN\" \"http://www.apple.com/DTDs/PropertyList-1.0.dtd\">\n<plist version=\"1.0\">\n<dict>\n    <key>Label</key>\n    <string>com.dusty.daemon</string>\n    <key>ProgramArguments</key>\n    <array>\n        <string>"@
                + exe_path@
                + "</string>\n        <string>daemon</string>\n    </array>\n    <key>EnvironmentVariables</key>\n    <dict>\n        <key>HOME</key>\n        <string>"@
                + home@
                + "</string>\n    </dict>\n    <key>RunAtLoad</key>\n    <true/>\n    <key>KeepAlive</key>\n    <true/>\n    <key>StandardOutPath</key>\n    <string>/var/log/dusty/dusty.log</string>\n    <key>StandardErrorPath</key>\n    <string>/var/log/dusty/dusty.err</string>\n</dict>\n</plist>\n"@,
    {
        let mut s = strutil::copy_str(
            "<?xml version=\"1.0\" encoding=\"UTF-8\"?>\n<!DOCTYPE plist PUBLIC \"-//Apple//DTD PLIST 1.0//EN\" \"http://www.apple.com/DTDs/PropertyList-1.0.dtd\">\n<plist version=\"1.0\">\n<dict>\n    <key>Label</key>\n    <string>com.dusty.daemon</string>\n    <key>ProgramArguments</key>\n    <array>\n        <string>",
        );
        s.append(exe_path);
        s.append(
            "</string>\n        <string>daemon</string>\n    </array>\n    <key>EnvironmentVariables</key>\n    <dict>\n        <key>HOME</key>\n        <string>",
        );
        s.append(home);
        s.append(
            "</string>\n    </dict>\n    <key>RunAtLoad</key>\n    <true/>\n    <key>KeepAlive</key>\n    <true/>\n    <key>StandardOutPath</key>\n    <string>/var/log/dusty/dusty.log</string>\n    <key>StandardErrorPath</key>\n    <string>/var/log/dusty/dusty.err</string>\n</dict>\n</plist>\n",
        );
        s
    }
}

/// The macOS dependency analyzer's parsing side.
pub struct Analyzer;

impl Analyzer {
    /// The analysis of one dependency-tool run: its library paths, wrapped
    /// as dependency entries.
    pub fn analyze_output(output: &str) -> (r: crate::deps::DylibAnalysis)
        ensures
            ({
                let lines = spec_split(output@, '\n');
                r.libs@.map_values(|d: crate::deps::DylibDep| d.path@) == spec_parse_otool(
                    lines.subrange(1, lines.len() as int),
                )
            }),
    {
        let paths = parse_otool_output(output);
        crate::linux::wrap_libs(paths)
    }
}

} // verus!
