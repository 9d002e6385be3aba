//! Linux distribution facts: which family an os-release identification
//! belongs to, which package manager and init system serve it, and the
//! command that installs the audit tool.
//!
//! Reading `/etc/os-release` and probing for commands is the caller's; the
//! classification of what was read is decided here.

use vstd::prelude::*;

use crate::strutil;
use crate::strutil::{contains_sub, starts_with, spec_split};
use crate::ledger::{seq_has, strs_view};

verus! {

/// A Linux distribution family.
#[derive(Debug, Clone, Copy, PartialEq, Eq, Structural)]
pub enum Distro {
    Debian,
    Fedora,
    Arch,
    OpenSUSE,
    Alpine,
    Void,
    NixOS,
    Gentoo,
    Unknown,
}

/// A package manager.
#[derive(Debug, Clone, Copy, PartialEq, Eq, Structural)]
pub enum PackageManager {
    Apt,
    Dnf,
    Yum,
    Pacman,
    Zypper,
    Apk,
    Xbps,
    Nix,
    Portage,
    Unknown,
}

/// An init system.
#[derive(Debug, Clone, Copy, PartialEq, Eq, Structural)]
pub enum InitSystem {
    Systemd,
    OpenRC,
    Runit,
    SysV,
    Unknown,
}

/// What was detected about the running system.
#[derive(Debug, Clone, Copy)]
pub struct LinuxInfo {
    pub distro: Distro,
    pub package_manager: PackageManager,
    pub init_system: InitSystem,
}

/// ASCII lowercase of one character.
pub open spec fn spec_lower_char(c: char) -> char {
    if 'A' <= c <= 'Z' {
        (((c as u8) + 32) as char)
    } else {
        c
    }
}

pub open spec fn spec_lower(s: Seq<char>) -> Seq<char> {
    s.map_values(|c: char| spec_lower_char(c))
}

/// ASCII-lowercase a string.
pub fn ascii_lower(s: &str) -> (r: String)
    ensures
        r@ == spec_lower(s@),
{
    let n = s.unicode_len();
    let mut out = String::new();
    let mut i: usize = 0;
    while i < n
        invariant
            0 <= i <= n,
            n == s@.len(),
            out@ =~= spec_lower(s@).take(i as int),
        decreases n - i,
    {
        let c = s.get_char(i);
        let lc: char = if c >= 'A' && c <= 'Z' {
            ((c as u8) + 32) as char
        } else {
            c
        };
        proof {
            assert(spec_lower(s@)[i as int] == spec_lower_char(s@[i as int]));
        }
        out.push(lc);
        proof {
            assert(out@ =~= spec_lower(s@).take(i + 1));
        }
        i = i + 1;
    }
    proof {
        assert(spec_lower(s@).take(n as int) =~= spec_lower(s@));
    }
    out
}

/// `s` without leading and trailing double-quote characters.
pub open spec fn spec_trim_quotes_start(s: Seq<char>) -> Seq<char>
    decreases s.len(),
{
    if s.len() > 0 && s[0] == '"' {
        spec_trim_quotes_start(s.drop_first())
    } else {
        s
    }
}

pub open spec fn spec_trim_quotes_end(s: Seq<char>) -> Seq<char>
    decreases s.len(),
{
    if s.len() > 0 && s.last() == '"' {
        spec_trim_quotes_end(s.drop_last())
    } else {
        s
    }
}

pub open spec fn spec_trim_quotes(s: Seq<char>) -> Seq<char> {
    spec_trim_quotes_end(spec_trim_quotes_start(s))
}

proof fn lemma_trim_quotes_start_shift(s: Seq<char>, a: int)
    requires
        0 <= a <= s.len(),
        forall|j: int| 0 <= j < a ==> s[j] == '"',
    ensures
        spec_trim_quotes_start(s) == spec_trim_quotes_start(s.subrange(a, s.len() as int)),
    decreases a,
{
    if a == 0 {
        assert(s.subrange(0, s.len() as int) =~= s);
    } else {
        assert(s[0] == '"');
        assert forall|j: int| 0 <= j < a - 1 implies s.drop_first()[j] == '"' by {
            assert(s.drop_first()[j] == s[j + 1]);
        }
        lemma_trim_quotes_start_shift(s.drop_first(), a - 1);
        assert(s.drop_first().subrange(a - 1, s.drop_first().len() as int) =~= s.subrange(
            a,
            s.len() as int,
        ));
    }
}

proof fn lemma_trim_quotes_end_shift(s: Seq<char>, b: int)
    requires
        0 <= b <= s.len(),
        forall|j: int| b <= j < s.len() ==> s[j] == '"',
    ensures
        spec_trim_quotes_end(s) == spec_trim_quotes_end(s.subrange(0, b)),
    decreases s.len() - b,
{
    if b == s.len() {
        assert(s.subrange(0, b) =~= s);
    }
    if b < s.len() {
        assert(s.last() == '"');
        assert forall|j: int| b <= j < s.drop_last().len() implies s.drop_last()[j] == '"' by {
            assert(s.drop_last()[j] == s[j]);
        }
        lemma_trim_quotes_end_shift(s.drop_last(), b);
        assert(s.drop_last().subrange(0, b) =~= s.subrange(0, b));
    }
}

/// A copy of `s` without leading and trailing double quotes.
pub fn trim_quotes(s: &str) -> (r: String)
    ensures
        r@ == spec_trim_quotes(s@),
{
    let s_len = s.unicode_len();
    let mut a: usize = 0;
    while a < s_len && s.get_char(a) == '"'
        invariant
            0 <= a <= s_len,
            s_len == s@.len(),
            forall|j: int| 0 <= j < a ==> s@[j] == '"',
        decreases s_len - a,
    {
        a = a + 1;
    }
    let mut b: usize = s_len;
    while b > a && s.get_char(b - 1) == '"'
        invariant
            a <= b <= s_len,
            s_len == s@.len(),
            forall|j: int| b <= j < s@.len() ==> s@[j] == '"',
        decreases b,
    {
        b = b - 1;
    }
    let out = strutil::substring(s, a, b);
    proof {
        lemma_trim_quotes_start_shift(s@, a as int);
        let t = s@.subrange(a as int, s@.len() as int);
        assert(spec_trim_quotes_start(t) == t) by {
            if t.len() > 0 {
                assert(t[0] == s@[a as int]);
            }
        }
        assert forall|j: int| b - a <= j < t.len() implies t[j] == '"' by {
            assert(t[j] == s@[a + j]);
        }
        lemma_trim_quotes_end_shift(t, b - a);
        let u = t.subrange(0, b - a);
        assert(spec_trim_quotes_end(u) == u) by {
            if u.len() > 0 {
                assert(u.last() == s@[b - 1]);
            }
        }
        assert(out@ =~= u);
    }
    out
}

/// Index of the first line with the given prefix, or `-1`.
pub open spec fn line_index(lines: Seq<Seq<char>>, pre: Seq<char>) -> int
    decreases lines.len(),
{
    if lines.len() == 0 {
        -1
    } else if starts_with(lines[0], pre) {
        0
    } else {
        let r = line_index(lines.drop_first(), pre);
        if r < 0 {
            -1
        } else {
            r + 1
        }
    }
}

pub proof fn lemma_line_index(lines: Seq<Seq<char>>, pre: Seq<char>)
    ensures
        -1 <= line_index(lines, pre) < lines.len(),
        line_index(lines, pre) >= 0 ==> starts_with(lines[line_index(lines, pre)], pre)
            && forall|j: int| 0 <= j < line_index(lines, pre) ==> !starts_with(lines[j], pre),
        line_index(lines, pre) < 0 ==> forall|j: int|
            0 <= j < lines.len() ==> !starts_with(lines[j], pre),
    decreases lines.len(),
{
    if lines.len() > 0 && !starts_with(lines[0], pre) {
        let rest = lines.drop_first();
        lemma_line_index(rest, pre);
        let r = line_index(rest, pre);
        if r >= 0 {
            assert(lines[r + 1] == rest[r]);
            assert forall|j: int| 0 <= j < r + 1 implies !starts_with(lines[j], pre) by {
                if j > 0 {
                    assert(rest[j - 1] == lines[j]);
                }
            }
        } else {
            assert forall|j: int| 0 <= j < lines.len() implies !starts_with(lines[j], pre) by {
                if j > 0 {
                    assert(rest[j - 1] == lines[j]);
                }
            }
        }
    }
}

/// The identification value of the first line with the given prefix:
/// everything after the prefix, with quotes trimmed, lowercased.
pub open spec fn spec_field_value(content: Seq<char>, pre: Seq<char>) -> Option<Seq<char>> {
    let lines = spec_split(content, '\n');
    let i = line_index(lines, pre);
    if i < 0 {
        None
    } else {
        Some(spec_lower(spec_trim_quotes(lines[i].subrange(pre.len() as int, lines[i].len() as int))))
    }
}

/// The distro for an `ID=` value.
pub open spec fn spec_distro_for_id(id: Seq<char>) -> Distro {
    if id == "debian"@ || id == "ubuntu"@ || id == "linuxmint"@ || id == "pop"@ || id
        == "elementary"@ || id == "zorin"@ || id == "kali"@ {
        Distro::Debian
    } else if id == "fedora"@ || id == "rhel"@ || id == "centos"@ || id == "rocky"@ || id
        == "almalinux"@ {
        Distro::Fedora
    } else if id == "arch"@ || id == "manjaro"@ || id == "endeavouros"@ || id == "garuda"@ {
        Distro::Arch
    } else if id == "opensuse"@ || id == "opensuse-leap"@ || id == "opensuse-tumbleweed"@ || id
        == "sles"@ {
        Distro::OpenSUSE
    } else if id == "alpine"@ {
        Distro::Alpine
    } else if id == "void"@ {
        Distro::Void
    } else if id == "nixos"@ {
        Distro::NixOS
    } else if id == "gentoo"@ {
        Distro::Gentoo
    } else {
        Distro::Unknown
    }
}

/// The distro for an `ID_LIKE=` value, by family keywords.
pub open spec fn spec_distro_for_id_like(like: Seq<char>) -> Distro {
    if contains_sub(like, "debian"@) || contains_sub(like, "ubuntu"@) {
        Distro::Debian
    } else if contains_sub(like, "fedora"@) || contains_sub(like, "rhel"@) {
        Distro::Fedora
    } else if contains_sub(like, "arch"@) {
        Distro::Arch
    } else if contains_sub(like, "suse"@) {
        Distro::OpenSUSE
    } else {
        Distro::Unknown
    }
}

/// The distro an os-release file identifies: the `ID=` value when it names
/// a known distro, else the `ID_LIKE=` families, else unknown.
pub open spec fn spec_parse_os_release(content: Seq<char>) -> Distro {
    match spec_field_value(content, "ID="@) {
        None => Distro::Unknown,
        Some(id) => {
            let d = spec_distro_for_id(id);
            if d != Distro::Unknown {
                d
            } else {
                match spec_field_value(content, "ID_LIKE="@) {
                    None => Distro::Unknown,
                    Some(like) => spec_distro_for_id_like(like),
                }
            }
        },
    }
}

/// The identification value of the first line with the given prefix.
fn field_value(content: &str, pre: &str) -> (r: Option<String>)
    ensures
        crate::scan::opt_string_view(&r) == spec_field_value(content@, pre@),
{
    let lines = strutil::split_char(content, '\n');
    let ghost lv = lines@.map_values(|x: String| x@);
    proof {
        lemma_line_index(lv, pre@);
    }
    let n = lines.len();
    let mut i: usize = 0;
    while i < n
        invariant
            0 <= i <= n,
            n == lines@.len(),
            lv == lines@.map_values(|x: String| x@),
            lv == spec_split(content@, '\n'),
            forall|j: int| 0 <= j < i ==> !starts_with(lv[j], pre@),
        decreases n - i,
    {
        if strutil::str_starts_with(lines[i].as_str(), pre) {
            proof {
                assert(starts_with(lv[i as int], pre@));
                assert(line_index(lv, pre@) == i);
            }
            let line = lines[i].as_str();
            let llen = line.unicode_len();
            let plen = pre.unicode_len();
            let rest = line.substring_char(plen, llen);
            let trimmed = trim_quotes(rest);
            let lowered = ascii_lower(trimmed.as_str());
            return Some(lowered);
        }
        proof {
            assert(!starts_with(lv[i as int], pre@));
        }
        i = i + 1;
    }
    None
}

/// The distro for an `ID=` value.
fn distro_for_id(id: &str) -> (r: Distro)
    ensures
        r == spec_distro_for_id(id@),
{
    if strutil::str_eq(id, "debian") || strutil::str_eq(id, "ubuntu") || strutil::str_eq(
        id,
        "linuxmint",
    ) || strutil::str_eq(id, "pop") || strutil::str_eq(id, "elementary") || strutil::str_eq(
        id,
        "zorin",
    ) || strutil::str_eq(id, "kali") {
        Distro::Debian
    } else if strutil::str_eq(id, "fedora") || strutil::str_eq(id, "rhel") || strutil::str_eq(
        id,
        "centos",
    ) || strutil::str_eq(id, "rocky") || strutil::str_eq(id, "almalinux") {
        Distro::Fedora
    } else if strutil::str_eq(id, "arch") || strutil::str_eq(id, "manjaro") || strutil::str_eq(
        id,
        "endeavouros",
    ) || strutil::str_eq(id, "garuda") {
        Distro::Arch
    } else if strutil::str_eq(id, "opensuse") || strutil::str_eq(id, "opensuse-leap")
        || strutil::str_eq(id, "opensuse-tumbleweed") || strutil::str_eq(id, "sles") {
        Distro::OpenSUSE
    } else if strutil::str_eq(id, "alpine") {
        Distro::Alpine
    } else if strutil::str_eq(id, "void") {
        Distro::Void
    } else if strutil::str_eq(id, "nixos") {
        Distro::NixOS
    } else if strutil::str_eq(id, "gentoo") {
        Distro::Gentoo
    } else {
        Distro::Unknown
    }
}

/// Classify the contents of an os-release file.
pub fn parse_os_release(content: &str) -> (r: Distro)
    ensures
        r == spec_parse_os_release(content@),
{
    match field_value(content, "ID=") {
        None => Distro::Unknown,
        Some(id) => {
            let d = distro_for_id(id.as_str());
            if !matches!(d, Distro::Unknown) {
                d
            } else {
                match field_value(content, "ID_LIKE=") {
                    None => Distro::Unknown,
                    Some(like) => {
                        if strutil::str_contains(like.as_str(), "debian") || strutil::str_contains(
                            like.as_str(),
                            "ubuntu",
                        ) {
                            Distro::Debian
                        } else if strutil::str_contains(like.as_str(), "fedora")
                            || strutil::str_contains(like.as_str(), "rhel") {
                            Distro::Fedora
                        } else if strutil::str_contains(like.as_str(), "arch") {
                            Distro::Arch
                        } else if strutil::str_contains(like.as_str(), "suse") {
                            Distro::OpenSUSE
                        } else {
                            Distro::Unknown
                        }
                    },
                }
            }
        },
    }
}

/// The package manager a distro family uses; for the Fedora family the
/// modern tool when it is available, else its predecessor.
pub open spec fn spec_package_manager_for(d: Distro, have_dnf: bool) -> Option<PackageManager> {
    match d {
        Distro::Debian => Some(PackageManager::Apt),
        Distro::Fedora => if have_dnf {
            Some(PackageManager::Dnf)
        } else {
            Some(PackageManager::Yum)
        },
        Distro::Arch => Some(PackageManager::Pacman),
        Distro::OpenSUSE => Some(PackageManager::Zypper),
        Distro::Alpine => Some(PackageManager::Apk),
        Distro::Void => Some(PackageManager::Xbps),
        Distro::NixOS => Some(PackageManager::Nix),
        Distro::Gentoo => Some(PackageManager::Portage),
        Distro::Unknown => None,
    }
}

/// The fallback order when the distro is unknown: the first package-query
/// command that exists decides.
pub open spec fn spec_fallback_package_manager(available: Seq<Seq<char>>) -> PackageManager {
    if seq_has(available, "apt"@) {
        PackageManager::Apt
    } else if seq_has(available, "dnf"@) {
        PackageManager::Dnf
    } else if seq_has(available, "yum"@) {
        PackageManager::Yum
    } else if seq_has(available, "pacman"@) {
        PackageManager::Pacman
    } else if seq_has(available, "zypper"@) {
        PackageManager::Zypper
    } else if seq_has(available, "apk"@) {
        PackageManager::Apk
    } else if seq_has(available, "xbps-install"@) {
        PackageManager::Xbps
    } else if seq_has(available, "nix-env"@) {
        PackageManager::Nix
    } else if seq_has(available, "emerge"@) {
        PackageManager::Portage
    } else {
        PackageManager::Unknown
    }
}

/// Which package manager serves the detected distro; `available` holds the
/// commands that exist on the system, for the Fedora choice and the
/// unknown-distro fallback.
pub fn detect_package_manager(d: &Distro, available: &Vec<String>) -> (r: PackageManager)
    ensures
        r == match spec_package_manager_for(*d, seq_has(strs_view(available@), "dnf"@)) {
            Some(pm) => pm,
            None => spec_fallback_package_manager(strs_view(available@)),
        },
{
    match d {
        Distro::Debian => PackageManager::Apt,
        Distro::Fedora => {
            let dnf = strutil::copy_str("dnf");
            if crate::ledger::contains_str(available, &dnf) {
                PackageManager::Dnf
            } else {
                PackageManager::Yum
            }
        },
        Distro::Arch => PackageManager::Pacman,
        Distro::OpenSUSE => PackageManager::Zypper,
        Distro::Alpine => PackageManager::Apk,
        Distro::Void => PackageManager::Xbps,
        Distro::NixOS => PackageManager::Nix,
        Distro::Gentoo => PackageManager::Portage,
        Distro::Unknown => {
            if has_cmd(available, "apt") {
                PackageManager::Apt
            } else if has_cmd(available, "dnf") {
                PackageManager::Dnf
            } else if has_cmd(available, "yum") {
                PackageManager::Yum
            } else if has_cmd(available, "pacman") {
                PackageManager::Pacman
            } else if has_cmd(available, "zypper") {
                PackageManager::Zypper
            } else if has_cmd(available, "apk") {
                PackageManager::Apk
            } else if has_cmd(available, "xbps-install") {
                PackageManager::Xbps
            } else if has_cmd(available, "nix-env") {
                PackageManager::Nix
            } else if has_cmd(available, "emerge") {
                PackageManager::Portage
            } else {
                PackageManager::Unknown
            }
        },
    }
}

/// Whether a command name occurs in the list of available commands.
fn has_cmd(available: &Vec<String>, cmd: &str) -> (r: bool)
    ensures
        r == seq_has(strs_view(available@), cmd@),
{
    let c = strutil::copy_str(cmd);
    crate::ledger::contains_str(available, &c)
}

/// The init-system priority: the systemd runtime directory decides first,
/// then OpenRC's service tool, then runit, then a bare SysV layout.
pub open spec fn spec_detect_init_system(
    has_run_systemd: bool,
    has_rc_service: bool,
    has_etc_initd: bool,
    has_openrc: bool,
    has_run_runit: bool,
    has_sv: bool,
) -> InitSystem {
    if has_run_systemd {
        InitSystem::Systemd
    } else if has_rc_service || (has_etc_initd && has_openrc) {
        InitSystem::OpenRC
    } else if has_run_runit || has_sv {
        InitSystem::Runit
    } else if has_etc_initd {
        InitSystem::SysV
    } else {
        InitSystem::Unknown
    }
}

/// Decide the init system from the observed system facts.
pub fn detect_init_system(
    has_run_systemd: bool,
    has_rc_service: bool,
    has_etc_initd: bool,
    has_openrc: bool,
    has_run_runit: bool,
    has_sv: bool,
) -> (r: InitSystem)
    ensures
        r == spec_detect_init_system(
            has_run_systemd,
            has_rc_service,
            has_etc_initd,
            has_openrc,
            has_run_runit,
            has_sv,
        ),
{
    if has_run_systemd {
        InitSystem::Systemd
    } else if has_rc_service || (has_etc_initd && has_openrc) {
        InitSystem::OpenRC
    } else if has_run_runit || has_sv {
        InitSystem::Runit
    } else if has_etc_initd {
        InitSystem::SysV
    } else {
        InitSystem::Unknown
    }
}

/// The command that installs the audit tool under each package manager,
/// when the tool is packaged for it.
pub open spec fn spec_fatrace_install_cmd(pm: PackageManager) -> Option<Seq<Seq<char>>> {
    match pm {
        PackageManager::Apt => Some(seq!["sudo"@, "apt"@, "install"@, "-y"@, "fatrace"@]),
        PackageManager::Dnf => Some(seq!["sudo"@, "dnf"@, "install"@, "-y"@, "fatrace"@]),
        PackageManager::Yum => Some(seq!["sudo"@, "yum"@, "install"@, "-y"@, "fatrace"@]),
        PackageManager::Pacman => Some(seq!["sudo"@, "pacman"@, "-S"@, "--noconfirm"@, "fatrace"@]),
        PackageManager::Zypper => Some(seq!["sudo"@, "zypper"@, "install"@, "-y"@, "fatrace"@]),
        PackageManager::Apk => None,
        PackageManager::Xbps => Some(seq!["sudo"@, "xbps-install"@, "-y"@, "fatrace"@]),
        PackageManager::Nix => Some(seq!["nix-env"@, "-iA"@, "nixpkgs.fatrace"@]),
        PackageManager::Portage => Some(seq!["sudo"@, "emerge"@, "fatrace"@]),
        PackageManager::Unknown => None,
    }
}

pub open spec fn opt_strs_view(o: &Option<Vec<String>>) -> Option<Seq<Seq<char>>> {
    match o {
        Some(v) => Some(strs_view(v@)),
        None => None,
    }
}

impl LinuxInfo {
    /// The command that installs the audit tool on this system, if it is
    /// packaged for it.
    pub fn fatrace_install_cmd(&self) -> (r: Option<Vec<String>>)
        ensures
            opt_strs_view(&r) == spec_fatrace_install_cmd(self.package_manager),
    {
        let words: Vec<&str> = match self.package_manager {
            PackageManager::Apt => vec!["sudo", "apt", "install", "-y", "fatrace"],
            PackageManager::Dnf => vec!["sudo", "dnf", "install", "-y", "fatrace"],
            PackageManager::Yum => vec!["sudo", "yum", "install", "-y", "fatrace"],
            PackageManager::Pacman => vec!["sudo", "pacman", "-S", "--noconfirm", "fatrace"],
            PackageManager::Zypper => vec!["sudo", "zypper", "install", "-y", "fatrace"],
            PackageManager::Apk => {
                return None;
            },
            PackageManager::Xbps => vec!["sudo", "xbps-install", "-y", "fatrace"],
            PackageManager::Nix => vec!["nix-env", "-iA", "nixpkgs.fatrace"],
            PackageManager::Portage => vec!["sudo", "emerge", "fatrace"],
            PackageManager::Unknown => {
                return None;
            },
        };
        let n = words.len();
        let mut out: Vec<String> = Vec::new();
        let mut i: usize = 0;
        while i < n
            invariant
                0 <= i <= n,
                n == words@.len(),
                strs_view(out@) =~= words@.map_values(|w: &str| w@).take(i as int),
            decreases n - i,
        {
            let w = strutil::copy_str(words[i]);
            out.push(w);
            proof {
                assert(strs_view(out@) =~= words@.map_values(|w: &str| w@).take(i + 1));
            }
            i = i + 1;
        }
        proof {
            assert(words@.map_values(|w: &str| w@).take(n as int) =~= words@.map_values(
                |w: &str| w@,
            ));
            assert(strs_view(out@) =~= words@.map_values(|w: &str| w@));
            match self.package_manager {
                PackageManager::Apt => {
                    assert(strs_view(out@) =~= seq!["sudo"@, "apt"@, "install"@, "-y"@, "fatrace"@]);
                },
                PackageManager::Dnf => {
                    assert(strs_view(out@) =~= seq!["sudo"@, "dnf"@, "install"@, "-y"@, "fatrace"@]);
                },
                PackageManager::Yum => {
                    assert(strs_view(out@) =~= seq!["sudo"@, "yum"@, "install"@, "-y"@, "fatrace"@]);
                },
                PackageManager::Pacman => {
                    assert(strs_view(out@) =~= seq![
                        "sudo"@,
                        "pacman"@,
                        "-S"@,
                        "--noconfirm"@,
                        "fatrace"@,
                    ]);
                },
                PackageManager::Zypper => {
                    assert(strs_view(out@) =~= seq![
                        "sudo"@,
                        "zypper"@,
                        "install"@,
                        "-y"@,
                        "fatrace"@,
                    ]);
                },
                PackageManager::Xbps => {
                    assert(strs_view(out@) =~= seq!["sudo"@, "xbps-install"@, "-y"@, "fatrace"@]);
                },
                PackageManager::Nix => {
                    assert(strs_view(out@) =~= seq!["nix-env"@, "-iA"@, "nixpkgs.fatrace"@]);
                },
                PackageManager::Portage => {
                    assert(strs_view(out@) =~= seq!["sudo"@, "emerge"@, "fatrace"@]);
                },
                _ => {},
            }
        }
        Some(out)
    }
}

} // verus!
