//! Linux platform logic: parsing the dynamic-dependency tool's output,
//! parsing package-query answers and sizes, and generating service files.
//!
//! Running the tools is the caller's; everything they print is interpreted
//! here.

use vstd::prelude::*;

use crate::strutil;
use crate::strutil::{
    starts_with, spec_trim, spec_is_space, sub_index, lemma_sub_index, char_index,
    lemma_char_index, spec_split,
};
use crate::ledger::strs_view;

verus! {

/// Core libraries that are always present and never interesting for
/// dependency analysis.
pub open spec fn spec_is_core_lib(name: Seq<char>) -> bool {
    ||| starts_with(name, "linux-vdso.so"@)
    ||| starts_with(name, "linux-gate.so"@)
    ||| starts_with(name, "ld-linux"@)
    ||| starts_with(name, "libpthread.so"@)
    ||| starts_with(name, "libdl.so"@)
    ||| starts_with(name, "librt.so"@)
    ||| starts_with(name, "libm.so"@)
    ||| starts_with(name, "libc.so"@)
}

/// Whether a library name is one of the always-present core libraries.
fn is_core_lib(name: &str) -> (r: bool)
    ensures
        r == spec_is_core_lib(name@),
{
    strutil::str_starts_with(name, "linux-vdso.so") || strutil::str_starts_with(
        name,
        "linux-gate.so",
    ) || strutil::str_starts_with(name, "ld-linux") || strutil::str_starts_with(
        name,
        "libpthread.so",
    ) || strutil::str_starts_with(name, "libdl.so") || strutil::str_starts_with(name, "librt.so")
        || strutil::str_starts_with(name, "libm.so") || strutil::str_starts_with(name, "libc.so")
}

/// The resolved library path one line of the dependency tool's output
/// yields: lines with an arrow carry `name => path (address)`; empty and
/// unresolved paths and core libraries are dropped.
pub open spec fn spec_ldd_line(line: Seq<char>) -> Option<Seq<char>> {
    let t = spec_trim(line);
    let k = sub_index(t, "=>"@);
    if k < 0 {
        None
    } else {
        let after = spec_trim(t.subrange(k + 2, t.len() as int));
        let p = sub_index(after, " ("@);
        let path = spec_trim(
            if p < 0 {
                after
            } else {
                after.subrange(0, p)
            },
        );
        if path.len() == 0 || path == "not found"@ {
            None
        } else {
            let name = spec_trim(t.subrange(0, k));
            if spec_is_core_lib(name) {
                None
            } else {
                Some(path)
            }
        }
    }
}

/// The library paths of a whole dependency-tool output, line by line.
pub open spec fn spec_parse_ldd(lines: Seq<Seq<char>>) -> Seq<Seq<char>>
    decreases lines.len(),
{
    if lines.len() == 0 {
        Seq::empty()
    } else {
        let p = spec_parse_ldd(lines.drop_last());
        match spec_ldd_line(lines.last()) {
            Some(path) => p.push(path),
            None => p,
        }
    }
}

/// Parse one line of the dependency tool's output.
fn parse_ldd_line(line: &str) -> (r: Option<String>)
    ensures
        crate::scan::opt_string_view(&r) == spec_ldd_line(line@),
{
    let t = strutil::trim_spaces(line);
    proof {
        lemma_sub_index(t@, "=>"@);
        reveal_strlit("=>");
    }
    let k = match strutil::find_sub_index(t.as_str(), "=>") {
        None => {
            return None;
        },
        Some(k) => k,
    };
    let t_len = t.as_str().unicode_len();
    let after_raw = t.as_str().substring_char(k + 2, t_len);
    let after = strutil::trim_spaces(after_raw);
    proof {
        lemma_sub_index(after@, " ("@);
        reveal_strlit(" (");
    }
    let a_len = after.as_str().unicode_len();
    let path_raw: String = match strutil::find_sub_index(after.as_str(), " (") {
        None => after,
        Some(p) => strutil::substring(after.as_str(), 0, p),
    };
    let path = strutil::trim_spaces(path_raw.as_str());
    if path.as_str().unicode_len() == 0 || strutil::str_eq(path.as_str(), "not found") {
        return None;
    }
    let name_raw = strutil::substring(t.as_str(), 0, k);
    let name = strutil::trim_spaces(name_raw.as_str());
    if is_core_lib(name.as_str()) {
        None
    } else {
        Some(path)
    }
}

/// Parse the dependency tool's whole output into resolved library paths,
/// dropping core libraries, unresolved entries and the loader lines.
pub fn parse_ldd_output(output: &str) -> (r: Vec<String>)
    ensures
        strs_view(r@) == spec_parse_ldd(spec_split(output@, '\n')),
{
    let lines = strutil::split_char(output, '\n');
    let ghost lv = lines@.map_values(|x: String| x@);
    let n = lines.len();
    let mut out: Vec<String> = Vec::new();
    let mut i: usize = 0;
    while i < n
        invariant
            0 <= i <= n,
            n == lines@.len(),
            lv == lines@.map_values(|x: String| x@),
            lv == spec_split(output@, '\n'),
            strs_view(out@) =~= spec_parse_ldd(lv.take(i as int)),
        decreases n - i,
    {
        proof {
            assert(lv.take(i + 1).drop_last() =~= lv.take(i as int));
            assert(lv.take(i + 1).last() == lv[i as int]);
            assert(lv[i as int] == lines@[i as int]@);
        }
        match parse_ldd_line(lines[i].as_str()) {
            Some(path) => {
                out.push(path);
            },
            None => {},
        }
        i = i + 1;
    }
    proof {
        assert(lv.take(n as int) =~= lv);
    }
    out
}

/// The digits' value read with saturation at the `u64` ceiling.
pub open spec fn spec_digits_sat(s: Seq<char>) -> Option<int>
    decreases s.len(),
{
    if s.len() == 0 {
        Some(0)
    } else {
        match spec_digits_sat(s.drop_last()) {
            None => None,
            Some(acc) => {
                let c = s.last();
                if '0' <= c <= '9' {
                    let v = acc * 10 + (c as int - '0' as int);
                    if v > u64::MAX {
                        Some(u64::MAX as int)
                    } else {
                        Some(v)
                    }
                } else {
                    None
                }
            },
        }
    }
}

/// Read a digit string with saturation; `None` when any character is not a
/// digit.
fn digits_sat(s: &str) -> (r: Option<u64>)
    ensures
        crate::deps::opt_u64_view(r) == spec_digits_sat(s@),
{
    let n = s.unicode_len();
    let mut acc: u64 = 0;
    let mut i: usize = 0;
    while i < n
        invariant
            0 <= i <= n,
            n == s@.len(),
            Some(acc as int) == spec_digits_sat(s@.take(i as int)),
        decreases n - i,
    {
        proof {
            assert(s@.take(i + 1).drop_last() =~= s@.take(i as int));
            assert(s@.take(i + 1).last() == s@[i as int]);
        }
        let c = s.get_char(i);
        if c < '0' || c > '9' {
            proof {
                let ghost mut j: int = i + 1;
                assert(spec_digits_sat(s@.take(i + 1)) is None);
                lemma_digits_sat_none(s@, i + 1);
            }
            return None;
        }
        let d = (c as u32 - '0' as u32) as u64;
        if acc > (u64::MAX - d) / 10 {
            acc = u64::MAX;
        } else {
            acc = acc * 10 + d;
        }
        proof {
            assert(Some(acc as int) == spec_digits_sat(s@.take(i + 1)));
        }
        i = i + 1;
    }
    proof {
        assert(s@.take(n as int) =~= s@);
    }
    Some(acc)
}

/// Once a non-digit appears, every longer prefix reads as `None`.
proof fn lemma_digits_sat_none(s: Seq<char>, k: int)
    requires
        0 < k <= s.len(),
        spec_digits_sat(s.take(k)) is None,
    ensures
        spec_digits_sat(s) is None,
    decreases s.len() - k,
{
    if k == s.len() {
        assert(s.take(k) =~= s);
    } else {
        assert(s.take(k + 1).drop_last() =~= s.take(k));
        lemma_digits_sat_none(s, k + 1);
    }
}

/// The digits' exact value: `None` when any character is not a digit or
/// the value exceeds the `u64` ceiling.
pub open spec fn spec_digits_checked(s: Seq<char>) -> Option<int>
    decreases s.len(),
{
    if s.len() == 0 {
        Some(0)
    } else {
        match spec_digits_checked(s.drop_last()) {
            None => None,
            Some(acc) => {
                let c = s.last();
                if '0' <= c <= '9' {
                    let v = acc * 10 + (c as int - '0' as int);
                    if v > u64::MAX {
                        None
                    } else {
                        Some(v)
                    }
                } else {
                    None
                }
            },
        }
    }
}

/// Once a prefix reads as `None`, the whole string does.
proof fn lemma_digits_checked_none(s: Seq<char>, k: int)
    requires
        0 < k <= s.len(),
        spec_digits_checked(s.take(k)) is None,
    ensures
        spec_digits_checked(s) is None,
    decreases s.len() - k,
{
    if k == s.len() {
        assert(s.take(k) =~= s);
    } else {
        assert(s.take(k + 1).drop_last() =~= s.take(k));
        lemma_digits_checked_none(s, k + 1);
    }
}

/// Read a digit string exactly; `None` on a non-digit or a value beyond
/// the `u64` ceiling.
fn digits_checked(s: &str) -> (r: Option<u64>)
    ensures
        crate::deps::opt_u64_view(r) == spec_digits_checked(s@),
{
    let n = s.unicode_len();
    let mut acc: u64 = 0;
    let mut i: usize = 0;
    while i < n
        invariant
            0 <= i <= n,
            n == s@.len(),
            Some(acc as int) == spec_digits_checked(s@.take(i as int)),
        decreases n - i,
    {
        proof {
            assert(s@.take(i + 1).drop_last() =~= s@.take(i as int));
            assert(s@.take(i + 1).last() == s@[i as int]);
        }
        let c = s.get_char(i);
        if c < '0' || c > '9' {
            proof {
                assert(spec_digits_checked(s@.take(i + 1)) is None);
                lemma_digits_checked_none(s@, i + 1);
            }
            return None;
        }
        let d = (c as u32 - '0' as u32) as u64;
        if acc > (u64::MAX - d) / 10 {
            proof {
                assert(spec_digits_checked(s@.take(i + 1)) is None);
                lemma_digits_checked_none(s@, i + 1);
            }
            return None;
        }
        acc = acc * 10 + d;
        proof {
            assert(Some(acc as int) == spec_digits_checked(s@.take(i + 1)));
        }
        i = i + 1;
    }
    proof {
        assert(s@.take(n as int) =~= s@);
    }
    Some(acc)
}

/// Whole-number parsing as the integer parser does it: an optional
/// leading plus, at least one digit, and a value no greater than the
/// `u64` ceiling.
pub open spec fn spec_parse_u64(s: Seq<char>) -> Option<int> {
    let body = if s.len() > 0 && s[0] == '+' {
        s.drop_first()
    } else {
        s
    };
    if body.len() == 0 {
        None
    } else {
        spec_digits_checked(body)
    }
}

/// Parse a whole number of bytes or kilobytes; a non-digit or a value
/// beyond the `u64` ceiling fails.
pub fn parse_u64(s: &str) -> (r: Option<u64>)
    ensures
        crate::deps::opt_u64_view(r) == spec_parse_u64(s@),
{
    let n = s.unicode_len();
    let body: String = if n > 0 {
        if s.get_char(0) == '+' {
            strutil::substring(s, 1, n)
        } else {
            strutil::copy_str(s)
        }
    } else {
        strutil::copy_str(s)
    };
    proof {
        if s@.len() > 0 && s@[0] == '+' {
            assert(body@ =~= s@.drop_first());
        }
    }
    if body.as_str().unicode_len() == 0 {
        return None;
    }
    digits_checked(body.as_str())
}

/// Every ASCII whitespace character replaced by a plain space, so that
/// fields split uniformly.
pub open spec fn spec_ws_to_space(c: char) -> char {
    if spec_is_space(c) {
        ' '
    } else {
        c
    }
}

pub open spec fn spec_norm_ws(s: Seq<char>) -> Seq<char> {
    s.map_values(|c: char| spec_ws_to_space(c))
}

/// Replace every ASCII whitespace character with a plain space.
fn normalize_ws(s: &str) -> (r: String)
    ensures
        r@ == spec_norm_ws(s@),
{
    let n = s.unicode_len();
    let mut out = String::new();
    let mut i: usize = 0;
    while i < n
        invariant
            0 <= i <= n,
            n == s@.len(),
            out@ =~= spec_norm_ws(s@).take(i as int),
        decreases n - i,
    {
        let c = s.get_char(i);
        let nc: char = if is_space_char(c) {
            ' '
        } else {
            c
        };
        proof {
            assert(spec_norm_ws(s@)[i as int] == spec_ws_to_space(s@[i as int]));
        }
        out.push(nc);
        proof {
            assert(out@ =~= spec_norm_ws(s@).take(i + 1));
        }
        i = i + 1;
    }
    proof {
        assert(spec_norm_ws(s@).take(n as int) =~= spec_norm_ws(s@));
    }
    out
}

/// The non-empty fields of a space-separated string.
pub open spec fn spec_fields(parts: Seq<Seq<char>>) -> Seq<Seq<char>>
    decreases parts.len(),
{
    if parts.len() == 0 {
        Seq::empty()
    } else {
        let p = spec_fields(parts.drop_last());
        if parts.last().len() > 0 {
            p.push(parts.last())
        } else {
            p
        }
    }
}

/// Split a string into its non-empty whitespace-separated fields.
pub fn fields_of(s: &str) -> (r: Vec<String>)
    ensures
        strs_view(r@) == spec_fields(spec_split(spec_norm_ws(s@), ' ')),
{
    let normed = normalize_ws(s);
    let parts = strutil::split_char(normed.as_str(), ' ');
    let ghost pv = parts@.map_values(|x: String| x@);
    let n = parts.len();
    let mut out: Vec<String> = Vec::new();
    let mut i: usize = 0;
    while i < n
        invariant
            0 <= i <= n,
            n == parts@.len(),
            pv == parts@.map_values(|x: String| x@),
            pv == spec_split(spec_norm_ws(s@), ' '),
            strs_view(out@) =~= spec_fields(pv.take(i as int)),
        decreases n - i,
    {
        proof {
            assert(pv.take(i + 1).drop_last() =~= pv.take(i as int));
            assert(pv.take(i + 1).last() == pv[i as int]);
            assert(pv[i as int] == parts@[i as int]@);
        }
        if parts[i].as_str().unicode_len() > 0 {
            let copy = parts[i].clone();
            out.push(copy);
        }
        i = i + 1;
    }
    proof {
        assert(pv.take(n as int) =~= pv);
    }
    out
}

/// The byte multiplier for a size unit, if the unit is known.
pub open spec fn spec_unit_mult(u: Seq<char>) -> Option<int> {
    if u == "B"@ {
        Some(1)
    } else if u == "KiB"@ || u == "KB"@ {
        Some(1024)
    } else if u == "MiB"@ || u == "MB"@ {
        Some(0x100000)
    } else if u == "GiB"@ || u == "GB"@ {
        Some(0x40000000)
    } else {
        None
    }
}

/// A human-readable size reading: exactly two fields, a decimal number
/// (whole digits, optionally a point and fraction digits, of which the
/// first nine count) and a known unit; the value floors to whole bytes and
/// caps at the `u64` ceiling.
pub open spec fn spec_parse_human_size(s: Seq<char>) -> Option<int> {
    let parts = spec_fields(spec_split(spec_norm_ws(s), ' '));
    if parts.len() != 2 {
        None
    } else {
        match spec_unit_mult(parts[1]) {
            None => None,
            Some(mult) => {
                let num = parts[0];
                let d = char_index(num, '.');
                let whole = if d < 0 {
                    num
                } else {
                    num.subrange(0, d)
                };
                let frac = if d < 0 {
                    Seq::<char>::empty()
                } else {
                    num.subrange(d + 1, num.len() as int)
                };
                if whole.len() == 0 {
                    None
                } else {
                    match (spec_digits_sat(whole), spec_digits_sat(frac)) {
                        (Some(w), Some(_)) => {
                            let flen9 = if frac.len() <= 9 {
                                frac.len() as int
                            } else {
                                9
                            };
                            match spec_digits_sat(frac.subrange(0, flen9)) {
                                Some(f9) => {
                                    let scale = spec_pow10(flen9);
                                    let v = (w * scale + f9) * mult / scale;
                                    if v > u64::MAX {
                                        Some(u64::MAX as int)
                                    } else {
                                        Some(v)
                                    }
                                },
                                None => None,
                            }
                        },
                        _ => None,
                    }
                }
            },
        }
    }
}

pub open spec fn spec_pow10(n: int) -> int
    decreases n,
{
    if n <= 0 {
        1
    } else {
        10 * spec_pow10(n - 1)
    }
}

/// Ten to a small power.
fn pow10(n: usize) -> (r: u64)
    requires
        n <= 9,
    ensures
        r == spec_pow10(n as int),
        1 <= r <= 1000000000,
{
    proof {
        reveal_with_fuel(spec_pow10, 11);
    }
    if n == 0 {
        1
    } else if n == 1 {
        10
    } else if n == 2 {
        100
    } else if n == 3 {
        1000
    } else if n == 4 {
        10000
    } else if n == 5 {
        100000
    } else if n == 6 {
        1000000
    } else if n == 7 {
        10000000
    } else if n == 8 {
        100000000
    } else {
        1000000000
    }
}

/// Parse a human-readable size such as `1.2 MiB` or `340 KiB` into bytes.
pub fn parse_human_size(s: &str) -> (r: Option<u64>)
    ensures
        crate::deps::opt_u64_view(r) == spec_parse_human_size(s@),
{
    let parts = fields_of(s);
    if parts.len() != 2 {
        return None;
    }
    proof {
        assert(strs_view(parts@)[0] == parts@[0]@);
        assert(strs_view(parts@)[1] == parts@[1]@);
    }
    let unit = &parts[1];
    let mult: u64 = if strutil::str_eq(unit.as_str(), "B") {
        1
    } else if strutil::str_eq(unit.as_str(), "KiB") || strutil::str_eq(unit.as_str(), "KB") {
        1024
    } else if strutil::str_eq(unit.as_str(), "MiB") || strutil::str_eq(unit.as_str(), "MB") {
        0x100000
    } else if strutil::str_eq(unit.as_str(), "GiB") || strutil::str_eq(unit.as_str(), "GB") {
        0x40000000
    } else {
        return None;
    };
    let num = parts[0].as_str();
    let nlen = num.unicode_len();
    proof {
        lemma_char_index(num@, '.');
    }
    let (whole, frac): (String, String) = match strutil::find_char_from(num, '.', 0) {
        None => {
            proof {
                assert(char_index(num@, '.') < 0);
            }
            (strutil::copy_str(num), String::new())
        },
        Some(d) => {
            proof {
                let ci = char_index(num@, '.');
                assert(num@[d as int] == '.');
                if ci < d {
                    assert(num@[ci] == '.');
                }
                assert(ci == d);
            }
            (strutil::substring(num, 0, d), strutil::substring(num, d + 1, nlen))
        },
    };
    if whole.as_str().unicode_len() == 0 {
        return None;
    }
    let w = match digits_sat(whole.as_str()) {
        None => {
            return None;
        },
        Some(w) => w,
    };
    let frac_len = frac.as_str().unicode_len();
    match digits_sat(frac.as_str()) {
        None => {
            return None;
        },
        Some(_) => {},
    }
    let flen9: usize = if frac_len <= 9 {
        frac_len
    } else {
        9
    };
    let frac9 = strutil::substring(frac.as_str(), 0, flen9);
    proof {
        assert(frac9@ =~= frac@.subrange(0, flen9 as int));
    }
    let f9 = match digits_sat(frac9.as_str()) {
        None => {
            return None;
        },
        Some(f9) => f9,
    };
    let scale = pow10(flen9);
    proof {
        assert((w as int) * (scale as int) <= 0xffffffffffffffff * 1000000000) by (nonlinear_arith)
            requires
                w <= 0xffffffffffffffff,
                1 <= scale <= 1000000000,
        ;
        assert(((w as int) * (scale as int) + (f9 as int)) * (mult as int) <= (0xffffffffffffffff
            * 1000000000 + 0xffffffffffffffff) * 0x40000000) by (nonlinear_arith)
            requires
                0 <= (w as int) * (scale as int) <= 0xffffffffffffffff * 1000000000,
                f9 <= 0xffffffffffffffff,
                1 <= mult <= 0x40000000,
        ;
    }
    let a: u128 = w as u128 * scale as u128;
    let b: u128 = a + f9 as u128;
    let big: u128 = b * mult as u128 / scale as u128;
    let v: u64 = if big > u64::MAX as u128 {
        u64::MAX
    } else {
        big as u64
    };
    Some(v)
}

/// The value after the first colon of the first line with the given
/// prefix, trimmed; the second colon, if any, ends it.
pub open spec fn spec_colon_value(lines: Seq<Seq<char>>, pre: Seq<char>) -> Option<Seq<char>> {
    let i = crate::distro::line_index(lines, pre);
    if i < 0 {
        None
    } else {
        let segs = spec_split(lines[i], ':');
        if segs.len() < 2 {
            None
        } else {
            Some(spec_trim(segs[1]))
        }
    }
}

/// The value after the first colon of the first line with the given
/// prefix.
fn colon_value(output: &str, pre: &str) -> (r: Option<String>)
    ensures
        crate::scan::opt_string_view(&r) == spec_colon_value(spec_split(output@, '\n'), pre@),
{
    let lines = strutil::split_char(output, '\n');
    let ghost lv = lines@.map_values(|x: String| x@);
    proof {
        crate::distro::lemma_line_index(lv, pre@);
    }
    let n = lines.len();
    let mut i: usize = 0;
    while i < n
        invariant
            0 <= i <= n,
            n == lines@.len(),
            lv == lines@.map_values(|x: String| x@),
            lv == spec_split(output@, '\n'),
            forall|j: int| 0 <= j < i ==> !starts_with(lv[j], pre@),
        decreases n - i,
    {
        if strutil::str_starts_with(lines[i].as_str(), pre) {
            proof {
                assert(starts_with(lv[i as int], pre@));
                assert(crate::distro::line_index(lv, pre@) == i);
            }
            let segs = strutil::split_char(lines[i].as_str(), ':');
            if segs.len() < 2 {
                return None;
            }
            proof {
                assert(segs@.map_values(|x: String| x@)[1] == segs@[1]@);
            }
            return Some(strutil::trim_spaces(segs[1].as_str()));
        }
        proof {
            assert(!starts_with(lv[i as int], pre@));
        }
        i = i + 1;
    }
    None
}

/// The installed size a pacman query reports: the human-readable value of
/// its `Installed Size` line.
pub open spec fn spec_pacman_size(output: Seq<char>) -> Option<int> {
    match spec_colon_value(spec_split(output, '\n'), "Installed Size"@) {
        None => None,
        Some(v) => spec_parse_human_size(v),
    }
}

/// Parse the installed size from a pacman package query.
pub fn parse_pacman_size(output: &str) -> (r: Option<u64>)
    ensures
        crate::deps::opt_u64_view(r) == spec_pacman_size(output@),
{
    match colon_value(output, "Installed Size") {
        None => None,
        Some(v) => parse_human_size(v.as_str()),
    }
}

/// The installed size an rpm query reports: the whole-byte value of its
/// `Size` line.
pub open spec fn spec_rpm_size(output: Seq<char>) -> Option<int> {
    match spec_colon_value(spec_split(output, '\n'), "Size"@) {
        None => None,
        Some(v) => spec_parse_u64(v),
    }
}

/// Parse the installed size from an rpm package query.
pub fn parse_rpm_size(output: &str) -> (r: Option<u64>)
    ensures
        crate::deps::opt_u64_view(r) == spec_rpm_size(output@),
{
    match colon_value(output, "Size") {
        None => None,
        Some(v) => parse_u64(v.as_str()),
    }
}

/// One line of a file-to-package query: `package[:architecture]: path`
/// yields the owning package and the file path.
pub open spec fn spec_dpkg_line(line: Seq<char>) -> Option<(Seq<char>, Seq<char>)> {
    let k = sub_index(line, ": "@);
    if k < 0 {
        None
    } else {
        let pkg_part = line.subrange(0, k);
        let path = spec_trim(line.subrange(k + 2, line.len() as int));
        let c = char_index(pkg_part, ':');
        let pkg = spec_trim(
            if c < 0 {
                pkg_part
            } else {
                pkg_part.subrange(0, c)
            },
        );
        Some((pkg, path))
    }
}

/// Parse one line of the file-to-package query into (package, path).
pub fn parse_dpkg_line(line: &str) -> (r: Option<(String, String)>)
    ensures
        match r {
            Some((pkg, path)) => spec_dpkg_line(line@) == Some((pkg@, path@)),
            None => spec_dpkg_line(line@) is None,
        },
{
    proof {
        lemma_sub_index(line@, ": "@);
        reveal_strlit(": ");
    }
    let k = match strutil::find_sub_index(line, ": ") {
        None => {
            return None;
        },
        Some(k) => k,
    };
    let n = line.unicode_len();
    let pkg_part = strutil::substring(line, 0, k);
    let path_raw = line.substring_char(k + 2, n);
    let path = strutil::trim_spaces(path_raw);
    proof {
        lemma_char_index(pkg_part@, ':');
    }
    let plen = pkg_part.as_str().unicode_len();
    let pkg_raw: String = match strutil::find_char_from(pkg_part.as_str(), ':', 0) {
        None => {
            proof {
                assert(char_index(pkg_part@, ':') < 0);
            }
            pkg_part
        },
        Some(c) => {
            proof {
                let ci = char_index(pkg_part@, ':');
                assert(pkg_part@[c as int] == ':');
                if ci < c {
                    assert(pkg_part@[ci] == ':');
                }
                assert(ci == c);
            }
            strutil::substring(pkg_part.as_str(), 0, c)
        },
    };
    let pkg = strutil::trim_spaces(pkg_raw.as_str());
    Some((pkg, path))
}

/// The owner a pacman file query names: the first field after
/// `is owned by `.
pub open spec fn spec_pacman_owner(output: Seq<char>) -> Option<Seq<char>> {
    let k = sub_index(output, "is owned by "@);
    if k < 0 {
        None
    } else {
        let rest = spec_trim_start_ws(output.subrange(k + 12, output.len() as int));
        let e = spec_first_space(rest);
        let field = if e < 0 {
            rest
        } else {
            rest.subrange(0, e)
        };
        if field.len() == 0 {
            None
        } else {
            Some(field)
        }
    }
}

/// `s` without its leading ASCII whitespace (shared with the trim spec).
pub open spec fn spec_trim_start_ws(s: Seq<char>) -> Seq<char> {
    crate::strutil::spec_trim_start(s)
}

/// Index of the first ASCII whitespace character, or `-1`.
pub open spec fn spec_first_space(s: Seq<char>) -> int
    decreases s.len(),
{
    if s.len() == 0 {
        -1
    } else if spec_is_space(s[0]) {
        0
    } else {
        let r = spec_first_space(s.drop_first());
        if r < 0 {
            -1
        } else {
            r + 1
        }
    }
}

proof fn lemma_first_space(s: Seq<char>)
    ensures
        -1 <= spec_first_space(s) < s.len(),
        spec_first_space(s) >= 0 ==> spec_is_space(s[spec_first_space(s)]) && forall|j: int|
            0 <= j < spec_first_space(s) ==> !spec_is_space(s[j]),
        spec_first_space(s) < 0 ==> forall|j: int| 0 <= j < s.len() ==> !spec_is_space(s[j]),
    decreases s.len(),
{
    if s.len() > 0 && !spec_is_space(s[0]) {
        let rest = s.drop_first();
        lemma_first_space(rest);
        let r = spec_first_space(rest);
        if r >= 0 {
            assert(s[r + 1] == rest[r]);
            assert forall|j: int| 0 <= j < r + 1 implies !spec_is_space(s[j]) by {
                if j > 0 {
                    assert(rest[j - 1] == s[j]);
                }
            }
        } else {
            assert forall|j: int| 0 <= j < s.len() implies !spec_is_space(s[j]) by {
                if j > 0 {
                    assert(rest[j - 1] == s[j]);
                }
            }
        }
    }
}

/// Parse the owning package from a pacman file-ownership query.
pub fn parse_pacman_owner(output: &str) -> (r: Option<String>)
    ensures
        crate::scan::opt_string_view(&r) == spec_pacman_owner(output@),
{
    proof {
        lemma_sub_index(output@, "is owned by "@);
        reveal_strlit("is owned by ");
    }
    let k = match strutil::find_sub_index(output, "is owned by ") {
        None => {
            return None;
        },
        Some(k) => k,
    };
    let n = output.unicode_len();
    let rest_raw = output.substring_char(k + 12, n);
    // Trim only the front: the field ends at the first whitespace.
    let mut a: usize = 0;
    let rlen = rest_raw.unicode_len();
    while a < rlen && is_space_char(rest_raw.get_char(a))
        invariant
            0 <= a <= rlen,
            rlen == rest_raw@.len(),
            forall|j: int| 0 <= j < a ==> spec_is_space(rest_raw@[j]),
        decreases rlen - a,
    {
        a = a + 1;
    }
    let rest = rest_raw.substring_char(a, rlen);
    proof {
        lemma_trim_start_shift_ws(rest_raw@, a as int);
        assert(spec_trim_start_ws(rest_raw@) == spec_trim_start_ws(rest@)) by {
            assert(rest@ =~= rest_raw@.subrange(a as int, rest_raw@.len() as int));
        }
        assert(spec_trim_start_ws(rest@) == rest@) by {
            if rest@.len() > 0 {
                assert(rest@[0] == rest_raw@[a as int]);
            }
        }
        lemma_first_space(rest@);
    }
    let field: String = match find_space_char(rest) {
        None => rest.to_owned(),
        Some(e) => strutil::substring(rest, 0, e),
    };
    if field.as_str().unicode_len() == 0 {
        None
    } else {
        Some(field)
    }
}

/// Whether a character is ASCII whitespace.
fn is_space_char(c: char) -> (r: bool)
    ensures
        r == spec_is_space(c),
{
    c == ' ' || c == '\t' || c == '\n' || c == '\r'
}

/// The first ASCII whitespace position, tied to `spec_first_space`.
fn find_space_char(s: &str) -> (r: Option<usize>)
    ensures
        ({
            let k = spec_first_space(s@);
            match r {
                Some(i) => i == k && i < s@.len(),
                None => k < 0,
            }
        }),
{
    proof {
        lemma_first_space(s@);
    }
    let n = s.unicode_len();
    let mut i: usize = 0;
    while i < n
        invariant
            0 <= i <= n,
            n == s@.len(),
            forall|j: int| 0 <= j < i ==> !spec_is_space(s@[j]),
        decreases n - i,
    {
        if is_space_char(s.get_char(i)) {
            proof {
                let k = spec_first_space(s@);
                if k < 0 {
                    assert(!spec_is_space(s@[i as int]));
                }
                if k < i {
                    assert(!spec_is_space(s@[k]));
                }
                assert(k == i);
            }
            return Some(i);
        }
        i = i + 1;
    }
    None
}

/// Leading whitespace does not change the front-trimmed value.
proof fn lemma_trim_start_shift_ws(s: Seq<char>, a: int)
    requires
        0 <= a <= s.len(),
        forall|j: int| 0 <= j < a ==> spec_is_space(s[j]),
    ensures
        spec_trim_start_ws(s) == spec_trim_start_ws(s.subrange(a, s.len() as int)),
    decreases a,
{
    if a == 0 {
        assert(s.subrange(0, s.len() as int) =~= s);
    } else {
        assert(spec_is_space(s[0]));
        assert forall|j: int| 0 <= j < a - 1 implies spec_is_space(s.drop_first()[j]) by {
            assert(s.drop_first()[j] == s[j + 1]);
        }
        lemma_trim_start_shift_ws(s.drop_first(), a - 1);
        assert(s.drop_first().subrange(a - 1, s.drop_first().len() as int) =~= s.subrange(
            a,
            s.len() as int,
        ));
    }
}

// ---------------------------------------------------------------------------
// Service files
// ---------------------------------------------------------------------------

/// The Linux service-file generators.
pub struct Daemon;

impl Daemon {
    /// Where the OpenRC service script lives.
    pub fn openrc_service_path() -> (r: String)
        ensures
            r@ == "/etc/init.d/dusty"@,
    {
        strutil::copy_str("/etc/init.d/dusty")
    }

    /// The systemd user unit that keeps the daemon running.
    pub fn generate_systemd_service(exe_path: &str) -> (r: String)
        ensures
            r@ == "[Unit]\nDescription=Dusty - Track binary usage\nAfter=default.target\n\n[Service]\nType=simple\nExecStart="@
                + exe_path@
                + " daemon\nRestart=always\nRestartSec=5\n\n[Install]\nWantedBy=default.target\n"@,
    {
        let mut s = strutil::copy_str(
            "[Unit]\nDescription=Dusty - Track binary usage\nAfter=default.target\n\n[Service]\nType=simple\nExecStart=",
        );
        s.append(exe_path);
        s.append(" daemon\nRestart=always\nRestartSec=5\n\n[Install]\nWantedBy=default.target\n");
        s
    }

    /// The OpenRC service script.
    pub fn generate_openrc_service(exe_path: &str) -> (r: String)
        ensures
            r@ == "#!/sbin/openrc-run\n\nname=\"dusty\"\ndescription=\"Dusty - Track binary usage\"\ncommand=\""@
                + exe_path@
                + "\"\ncommand_args=\"daemon\"\ncommand_background=true\npidfile=\"/run/${RC_SVCNAME}.pid\"\n\ndepend() {\n    need localmount\n    after bootmisc\n}\n"@,
    {
        let mut s = strutil::copy_str(
            "#!/sbin/openrc-run\n\nname=\"dusty\"\ndescription=\"Dusty - Track binary usage\"\ncommand=\"",
        );
        s.append(exe_path);
        s.append(
            "\"\ncommand_args=\"daemon\"\ncommand_background=true\npidfile=\"/run/${RC_SVCNAME}.pid\"\n\ndepend() {\n    need localmount\n    after bootmisc\n}\n",
        );
        s
    }

    /// The runit run script.
    pub fn generate_runit_run(exe_path: &str) -> (r: String)
        ensures
            r@ == "#!/bin/sh\nexec "@ + exe_path@ + " daemon\n"@,
    {
        let mut s = strutil::copy_str("#!/bin/sh\nexec ");
        s.append(exe_path);
        s.append(" daemon\n");
        s
    }
}

/// The Linux dependency analyzer's parsing side.
pub struct Analyzer;

impl Analyzer {
    /// The analysis of one dependency-tool run: its resolved library
    /// paths, wrapped as dependency entries.
    pub fn analyze_output(output: &str) -> (r: crate::deps::DylibAnalysis)
        ensures
            r.libs@.map_values(|d: crate::deps::DylibDep| d.path@) == spec_parse_ldd(
                spec_split(output@, '\n'),
            ),
    {
        let paths = parse_ldd_output(output);
        wrap_libs(paths)
    }
}

/// Wrap plain library paths as dependency entries.
pub(crate) fn wrap_libs(paths: Vec<String>) -> (r: crate::deps::DylibAnalysis)
    ensures
        r.libs@.map_values(|d: crate::deps::DylibDep| d.path@) == strs_view(paths@),
{
    let ghost target = strs_view(paths@);
    let mut rest = paths;
    let mut libs: Vec<crate::deps::DylibDep> = Vec::new();
    let n = rest.len();
    let mut i: usize = 0;
    while i < n
        invariant
            0 <= i <= n,
            n == rest@.len(),
            target == strs_view(rest@),
            libs@.map_values(|d: crate::deps::DylibDep| d.path@) =~= target.take(i as int),
        decreases n - i,
    {
        let copy = rest[i].clone();
        libs.push(crate::deps::DylibDep { path: copy });
        proof {
            assert(libs@.map_values(|d: crate::deps::DylibDep| d.path@) =~= target.take(i + 1));
        }
        i = i + 1;
    }
    proof {
        assert(target.take(n as int) =~= target);
    }
    crate::deps::DylibAnalysis { libs }
}

} // verus!
