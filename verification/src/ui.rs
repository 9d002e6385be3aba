//! Rendering helpers with exact contracts: decimal rendering of counts,
//! human-readable byte sizes, path shortening and truncation.

use vstd::prelude::*;

use crate::strutil;
use crate::strutil::starts_with;

verus! {

/// The decimal digit character for `d`.
pub open spec fn spec_digit(d: int) -> char {
    if d == 0 {
        '0'
    } else if d == 1 {
        '1'
    } else if d == 2 {
        '2'
    } else if d == 3 {
        '3'
    } else if d == 4 {
        '4'
    } else if d == 5 {
        '5'
    } else if d == 6 {
        '6'
    } else if d == 7 {
        '7'
    } else if d == 8 {
        '8'
    } else {
        '9'
    }
}

/// The decimal rendering of a non-negative number, most significant digit
/// first, with no leading zeros (`0` renders as "0").
pub open spec fn spec_decimal(n: int) -> Seq<char>
    decreases n,
{
    if n <= 9 {
        seq![spec_digit(n)]
    } else {
        spec_decimal(n / 10).push(spec_digit(n % 10))
    }
}

/// The decimal digit character for an executable digit.
fn digit_char(d: u64) -> (c: char)
    requires
        d <= 9,
    ensures
        c == spec_digit(d as int),
{
    if d == 0 {
        '0'
    } else if d == 1 {
        '1'
    } else if d == 2 {
        '2'
    } else if d == 3 {
        '3'
    } else if d == 4 {
        '4'
    } else if d == 5 {
        '5'
    } else if d == 6 {
        '6'
    } else if d == 7 {
        '7'
    } else if d == 8 {
        '8'
    } else {
        '9'
    }
}

/// Render a number in decimal.
pub fn u64_to_string(n: u64) -> (r: String)
    ensures
        r@ == spec_decimal(n as int),
    decreases n,
{
    if n <= 9 {
        let mut s = String::new();
        s.push(digit_char(n));
        proof {
            assert(s@ =~= seq![spec_digit(n as int)]);
        }
        s
    } else {
        let mut s = u64_to_string(n / 10);
        s.push(digit_char(n % 10));
        proof {
            assert(s@ =~= spec_decimal((n / 10) as int).push(spec_digit((n % 10) as int)));
        }
        s
    }
}

/// The human-readable size: whole gigabytes/megabytes with one decimal
/// place (rounding half up), whole kilobytes (likewise rounded), or bytes.
pub open spec fn spec_format_bytes(bytes: int) -> Seq<char> {
    if bytes >= 0x40000000 {
        let tenths = (bytes * 10 + 0x20000000) / 0x40000000;
        spec_decimal(tenths / 10) + seq!['.'] + seq![spec_digit(tenths % 10)] + " GB"@
    } else if bytes >= 0x100000 {
        let tenths = (bytes * 10 + 0x80000) / 0x100000;
        spec_decimal(tenths / 10) + seq!['.'] + seq![spec_digit(tenths % 10)] + " MB"@
    } else if bytes >= 1024 {
        let k = (bytes + 512) / 1024;
        spec_decimal(k) + " KB"@
    } else {
        spec_decimal(bytes) + " B"@
    }
}

/// Format a byte count for display: one decimal place of gigabytes or
/// megabytes, whole kilobytes, or plain bytes.
pub fn format_bytes(bytes: u64) -> (r: String)
    ensures
        r@ == spec_format_bytes(bytes as int),
{
    if bytes >= 0x40000000 {
        let tenths = ((bytes as u128 * 10 + 0x20000000) / 0x40000000) as u64;
        let mut s = u64_to_string(tenths / 10);
        s.push('.');
        s.push(digit_char(tenths % 10));
        s.append(" GB");
        proof {
            reveal_strlit(" GB");
            assert(s@ =~= spec_format_bytes(bytes as int));
        }
        s
    } else if bytes >= 0x100000 {
        let tenths = (bytes * 10 + 0x80000) / 0x100000;
        let mut s = u64_to_string(tenths / 10);
        s.push('.');
        s.push(digit_char(tenths % 10));
        s.append(" MB");
        proof {
            reveal_strlit(" MB");
            assert(s@ =~= spec_format_bytes(bytes as int));
        }
        s
    } else if bytes >= 1024 {
        let k = (bytes + 512) / 1024;
        let mut s = u64_to_string(k);
        s.append(" KB");
        proof {
            reveal_strlit(" KB");
            assert(s@ =~= spec_format_bytes(bytes as int));
        }
        s
    } else {
        let mut s = u64_to_string(bytes);
        s.append(" B");
        proof {
            reveal_strlit(" B");
            assert(s@ =~= spec_format_bytes(bytes as int));
        }
        s
    }
}

/// The truncation of `s` to at most `max_len` characters: unchanged when it
/// fits, otherwise an ellipsis followed by the last `max_len - 3`
/// characters.
pub open spec fn spec_truncate(s: Seq<char>, max_len: int) -> Seq<char> {
    if s.len() <= max_len {
        s
    } else {
        "..."@ + s.subrange(s.len() - (max_len - 3), s.len() as int)
    }
}

/// Truncate a string for display, keeping its tail.
pub fn truncate_str(s: &str, max_len: usize) -> (r: String)
    requires
        max_len >= 3,
    ensures
        r@ == spec_truncate(s@, max_len as int),
{
    let n = s.unicode_len();
    if n <= max_len {
        strutil::copy_str(s)
    } else {
        proof {
            reveal_strlit("...");
        }
        let mut out = strutil::copy_str("...");
        let tail = s.substring_char(n - (max_len - 3), n);
        out.append(tail);
        out
    }
}

/// The display shorthands: each path prefix and its replacement, with `~`
/// standing for the home directory.
pub open spec fn spec_shorthands(home: Seq<char>) -> Seq<(Seq<char>, Seq<char>)> {
    seq![
        ("/opt/homebrew/bin/"@, "brew:"@),
        ("/opt/homebrew/Cellar/"@, "brew:"@),
        ("/usr/local/bin/"@, "/usr/local/"@),
        ("/usr/bin/"@, "/usr/"@),
        (home + "/.cargo/bin/"@, "cargo:"@),
        (home + "/"@, "~/"@),
    ]
}

/// The shortened path: the first matching prefix replaced by its
/// shorthand, or the path unchanged.
pub open spec fn spec_shorten(
    shorthands: Seq<(Seq<char>, Seq<char>)>,
    p: Seq<char>,
) -> Seq<char>
    decreases shorthands.len(),
{
    if shorthands.len() == 0 {
        p
    } else if starts_with(p, shorthands[0].0) {
        shorthands[0].1 + p.subrange(shorthands[0].0.len() as int, p.len() as int)
    } else {
        spec_shorten(shorthands.drop_first(), p)
    }
}

/// Shorten a path for display by replacing a well-known prefix.
pub fn shorten_path(path: &str, home: &str) -> (r: String)
    ensures
        r@ == spec_shorten(spec_shorthands(home@), path@),
{
    let mut prefixes: Vec<String> = Vec::new();
    let mut reps: Vec<String> = Vec::new();
    prefixes.push(strutil::copy_str("/opt/homebrew/bin/"));
    reps.push(strutil::copy_str("brew:"));
    prefixes.push(strutil::copy_str("/opt/homebrew/Cellar/"));
    reps.push(strutil::copy_str("brew:"));
    prefixes.push(strutil::copy_str("/usr/local/bin/"));
    reps.push(strutil::copy_str("/usr/local/"));
    prefixes.push(strutil::copy_str("/usr/bin/"));
    reps.push(strutil::copy_str("/usr/"));
    let mut cargo_bin = strutil::copy_str(home);
    cargo_bin.append("/.cargo/bin/");
    prefixes.push(cargo_bin);
    reps.push(strutil::copy_str("cargo:"));
    let mut home_slash = strutil::copy_str(home);
    home_slash.append("/");
    prefixes.push(home_slash);
    reps.push(strutil::copy_str("~/"));

    let ghost sh = spec_shorthands(home@);
    proof {
        assert(prefixes@.len() == 6 && reps@.len() == 6);
        assert forall|j: int| 0 <= j < 6 implies #[trigger] sh[j] == (prefixes@[j]@, reps@[j]@) by {
        }
        assert(sh.subrange(0, sh.len() as int) =~= sh);
    }

    let n = prefixes.len();
    let mut i: usize = 0;
    while i < n
        invariant
            0 <= i <= n,
            n == 6,
            prefixes@.len() == 6,
            reps@.len() == 6,
            sh == spec_shorthands(home@),
            forall|j: int| 0 <= j < 6 ==> #[trigger] sh[j] == (prefixes@[j]@, reps@[j]@),
            spec_shorten(sh, path@) == spec_shorten(
                sh.subrange(i as int, sh.len() as int),
                path@,
            ),
        decreases n - i,
    {
        let ghost tail = sh.subrange(i as int, sh.len() as int);
        proof {
            assert(tail[0] == sh[i as int]);
            assert(tail.drop_first() =~= sh.subrange(i + 1, sh.len() as int));
        }
        if strutil::str_starts_with(path, prefixes[i].as_str()) {
            let plen = prefixes[i].as_str().unicode_len();
            let n_path = path.unicode_len();
            let mut out = reps[i].clone();
            let rest = path.substring_char(plen, n_path);
            out.append(rest);
            return out;
        }
        i = i + 1;
    }
    proof {
        assert(sh.subrange(6, 6).len() == 0);
    }
    strutil::copy_str(path)
}

/// The install roots of a path list: for each path under a well-known
/// anchor, the anchor plus the first following segment; first-appearance
/// order, deduplicated. Each path contributes for its first matching
/// anchor only.
pub open spec fn spec_root_of(anchors: Seq<Seq<char>>, p: Seq<char>) -> Option<Seq<char>>
    decreases anchors.len(),
{
    if anchors.len() == 0 {
        None
    } else {
        let a = anchors[0];
        if starts_with(p, a) {
            let rest = p.subrange(a.len() as int, p.len() as int);
            let e = strutil::char_index(rest, '/');
            let seg = if e < 0 {
                rest
            } else {
                rest.subrange(0, e)
            };
            if seg.len() > 0 {
                Some(a + seg)
            } else {
                spec_root_of(anchors.drop_first(), p)
            }
        } else {
            spec_root_of(anchors.drop_first(), p)
        }
    }
}

pub open spec fn spec_install_roots(
    anchors: Seq<Seq<char>>,
    paths: Seq<Seq<char>>,
) -> Seq<Seq<char>>
    decreases paths.len(),
{
    if paths.len() == 0 {
        Seq::empty()
    } else {
        let p = spec_install_roots(anchors, paths.drop_last());
        match spec_root_of(anchors, paths.last()) {
            Some(root) => if crate::ledger::seq_has(p, root) {
                p
            } else {
                p.push(root)
            },
            None => p,
        }
    }
}

/// The root for one path under the first matching anchor, if any.
fn root_of(anchors: &Vec<String>, p: &String) -> (r: Option<String>)
    ensures
        crate::scan::opt_string_view(&r) == spec_root_of(
            crate::ledger::strs_view(anchors@),
            p@,
        ),
{
    let ghost av = crate::ledger::strs_view(anchors@);
    proof {
        assert(av.subrange(0, av.len() as int) =~= av);
    }
    let n = anchors.len();
    let mut i: usize = 0;
    while i < n
        invariant
            0 <= i <= n,
            n == anchors@.len(),
            av == crate::ledger::strs_view(anchors@),
            spec_root_of(av, p@) == spec_root_of(av.subrange(i as int, av.len() as int), p@),
        decreases n - i,
    {
        let ghost tail = av.subrange(i as int, av.len() as int);
        proof {
            assert(tail[0] == av[i as int]);
            assert(tail.drop_first() =~= av.subrange(i + 1, av.len() as int));
        }
        if strutil::str_starts_with(p.as_str(), anchors[i].as_str()) {
            let alen = anchors[i].as_str().unicode_len();
            let plen = p.as_str().unicode_len();
            let rest = p.as_str().substring_char(alen, plen);
            proof {
                strutil::lemma_char_index(rest@, '/');
            }
            let seg: String = match strutil::find_char_from(rest, '/', 0) {
                None => {
                    proof {
                        assert(strutil::char_index(rest@, '/') < 0);
                    }
                    strutil::copy_str(rest)
                },
                Some(e) => {
                    proof {
                        let ci = strutil::char_index(rest@, '/');
                        assert(rest@[e as int] == '/');
                        if ci < e {
                            assert(rest@[ci] == '/');
                        }
                        assert(ci == e);
                    }
                    strutil::substring(rest, 0, e)
                },
            };
            if seg.as_str().unicode_len() > 0 {
                let mut out = anchors[i].clone();
                out.append(seg.as_str());
                return Some(out);
            }
        }
        i = i + 1;
    }
    proof {
        assert(av.subrange(n as int, av.len() as int).len() == 0);
    }
    None
}

/// Detect install-root directories from a set of binary paths: one level
/// below a well-known parent (`/opt/`, `/usr/local/`, or the home
/// directory), deduplicated in first-appearance order.
pub fn detect_install_roots(paths: &Vec<String>, home: &str) -> (r: Vec<String>)
    ensures
        crate::ledger::strs_view(r@) == spec_install_roots(
            seq!["/opt/"@, "/usr/local/"@, crate::scan::spec_expand_tilde("~/"@, home@)],
            crate::ledger::strs_view(paths@),
        ),
{
    let anchors = crate::scan::install_root_anchors(home);
    let ghost av = seq!["/opt/"@, "/usr/local/"@, crate::scan::spec_expand_tilde("~/"@, home@)];
    proof {
        assert(crate::ledger::strs_view(anchors@) =~= av);
    }
    let ghost pv = crate::ledger::strs_view(paths@);
    let n = paths.len();
    let mut out: Vec<String> = Vec::new();
    let mut i: usize = 0;
    while i < n
        invariant
            0 <= i <= n,
            n == paths@.len(),
            crate::ledger::strs_view(anchors@) == av,
            pv == crate::ledger::strs_view(paths@),
            crate::ledger::strs_view(out@) =~= spec_install_roots(av, pv.take(i as int)),
        decreases n - i,
    {
        proof {
            assert(pv.take(i + 1).drop_last() =~= pv.take(i as int));
            assert(pv.take(i + 1).last() == pv[i as int]);
            assert(pv[i as int] == paths@[i as int]@);
        }
        match root_of(&anchors, &paths[i]) {
            Some(root) => {
                if !crate::ledger::contains_str(&out, &root) {
                    out.push(root);
                }
            },
            None => {},
        }
        i = i + 1;
    }
    proof {
        assert(pv.take(n as int) =~= pv);
    }
    out
}

} // verus!
