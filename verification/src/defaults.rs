//! Built-in tables: the install-command mapping and autoremove hints for
//! known package managers, and the shape of a source candidate.

use vstd::prelude::*;

use crate::strutil;

verus! {

/// A source candidate for auto-detection during configuration generation:
/// its name, the paths whose existence identifies it, and its uninstall
/// command when it has a package manager.
pub struct SourceCandidate {
    pub name: String,
    pub detect_paths: Vec<String>,
    pub uninstall_cmd: Option<String>,
}

/// The install command that undoes a known uninstall command, if the
/// mapping is known.
pub open spec fn spec_install_cmd(u: Seq<char>) -> Option<Seq<char>> {
    if u == "brew uninstall"@ {
        Some("brew install"@)
    } else if u == "sudo apt remove -y"@ {
        Some("sudo apt install -y"@)
    } else if u == "sudo dnf remove -y"@ {
        Some("sudo dnf install -y"@)
    } else if u == "sudo pacman -R --noconfirm"@ {
        Some("sudo pacman -S --noconfirm"@)
    } else if u == "sudo zypper remove -y"@ {
        Some("sudo zypper install -y"@)
    } else if u == "sudo apk del"@ {
        Some("sudo apk add"@)
    } else if u == "sudo snap remove"@ {
        Some("sudo snap install"@)
    } else if u == "flatpak uninstall"@ {
        Some("flatpak install"@)
    } else if u == "cargo uninstall"@ {
        Some("cargo install"@)
    } else if u == "npm uninstall -g"@ {
        Some("npm install -g"@)
    } else if u == "pip uninstall -y"@ {
        Some("pip install"@)
    } else if u == "nix-env --uninstall"@ {
        Some("nix-env --install"@)
    } else if u == "bun remove -g"@ {
        Some("bun add -g"@)
    } else {
        None
    }
}

/// Derive an install command from an uninstall command, when the mapping
/// is known.
pub fn install_cmd_from_uninstall(uninstall_cmd: &str) -> (r: Option<String>)
    ensures
        crate::scan::opt_string_view(&r) == spec_install_cmd(uninstall_cmd@),
{
    if strutil::str_eq(uninstall_cmd, "brew uninstall") {
        Some(strutil::copy_str("brew install"))
    } else if strutil::str_eq(uninstall_cmd, "sudo apt remove -y") {
        Some(strutil::copy_str("sudo apt install -y"))
    } else if strutil::str_eq(uninstall_cmd, "sudo dnf remove -y") {
        Some(strutil::copy_str("sudo dnf install -y"))
    } else if strutil::str_eq(uninstall_cmd, "sudo pacman -R --noconfirm") {
        Some(strutil::copy_str("sudo pacman -S --noconfirm"))
    } else if strutil::str_eq(uninstall_cmd, "sudo zypper remove -y") {
        Some(strutil::copy_str("sudo zypper install -y"))
    } else if strutil::str_eq(uninstall_cmd, "sudo apk del") {
        Some(strutil::copy_str("sudo apk add"))
    } else if strutil::str_eq(uninstall_cmd, "sudo snap remove") {
        Some(strutil::copy_str("sudo snap install"))
    } else if strutil::str_eq(uninstall_cmd, "flatpak uninstall") {
        Some(strutil::copy_str("flatpak install"))
    } else if strutil::str_eq(uninstall_cmd, "cargo uninstall") {
        Some(strutil::copy_str("cargo install"))
    } else if strutil::str_eq(uninstall_cmd, "npm uninstall -g") {
        Some(strutil::copy_str("npm install -g"))
    } else if strutil::str_eq(uninstall_cmd, "pip uninstall -y") {
        Some(strutil::copy_str("pip install"))
    } else if strutil::str_eq(uninstall_cmd, "nix-env --uninstall") {
        Some(strutil::copy_str("nix-env --install"))
    } else if strutil::str_eq(uninstall_cmd, "bun remove -g") {
        Some(strutil::copy_str("bun add -g"))
    } else {
        None
    }
}

/// The autoremove command that cleans up orphaned dependencies for a
/// source, if one is known.
pub open spec fn spec_autoremove_hint(s: Seq<char>) -> Option<Seq<char>> {
    if s == "homebrew"@ || s == "linuxbrew"@ {
        Some("brew autoremove"@)
    } else if s == "apt"@ {
        Some("sudo apt autoremove"@)
    } else if s == "dnf"@ {
        Some("sudo dnf autoremove"@)
    } else if s == "pacman"@ {
        Some("sudo pacman -Qdtq | sudo pacman -Rns -"@)
    } else if s == "zypper"@ {
        Some("sudo zypper packages --unneeded"@)
    } else if s == "flatpak"@ {
        Some("flatpak uninstall --unused"@)
    } else {
        None
    }
}

pub open spec fn opt_ref_view(o: &Option<&str>) -> Option<Seq<char>> {
    match o {
        Some(s) => Some(s@),
        None => None,
    }
}

/// The autoremove hint for a source's orphaned dependencies.
pub fn autoremove_hint(source: &str) -> (r: Option<&'static str>)
    ensures
        opt_ref_view(&r) == spec_autoremove_hint(source@),
{
    if strutil::str_eq(source, "homebrew") || strutil::str_eq(source, "linuxbrew") {
        Some("brew autoremove")
    } else if strutil::str_eq(source, "apt") {
        Some("sudo apt autoremove")
    } else if strutil::str_eq(source, "dnf") {
        Some("sudo dnf autoremove")
    } else if strutil::str_eq(source, "pacman") {
        Some("sudo pacman -Qdtq | sudo pacman -Rns -")
    } else if strutil::str_eq(source, "zypper") {
        Some("sudo zypper packages --unneeded")
    } else if strutil::str_eq(source, "flatpak") {
        Some("flatpak uninstall --unused")
    } else {
        None
    }
}

} // verus!
