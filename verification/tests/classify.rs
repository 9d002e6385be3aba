//! Tests for configuration matching, scan classification, platform output
//! parsing and display formatting.

use dusty::config::{Config, ScanConfig, SourceDef};
use dusty::scan;
use dusty::distro::{self, Distro, InitSystem, LinuxInfo, PackageManager};
use dusty::linux;
use dusty::macos;
use dusty::ui;
use dusty::defaults;

#[test]
fn test_should_ignore_binary_exact() {
    let mut config = Config::default();
    config.scan.ignore_binaries = vec!["python3-config".to_string()];

    assert!(config.should_ignore_binary("python3-config"));
    assert!(!config.should_ignore_binary("python3"));
    assert!(!config.should_ignore_binary("python3-config-extra"));
}

#[test]
fn test_should_ignore_binary_glob() {
    let mut config = Config::default();
    config.scan.ignore_binaries = vec!["python*-config".to_string()];

    assert!(config.should_ignore_binary("python3-config"));
    assert!(config.should_ignore_binary("python-config"));
    assert!(config.should_ignore_binary("python3.11-config"));
    assert!(!config.should_ignore_binary("python3"));
}

#[test]
fn test_categorize_path() {
    let mut config = Config::default();
    config.sources = vec![
        SourceDef {
            name: "homebrew".to_string(),
            path: "/opt/homebrew".to_string(),
            uninstall_cmd: None,
            list_cmd: None,
        },
        SourceDef {
            name: "cargo".to_string(),
            path: ".cargo/bin".to_string(),
            uninstall_cmd: None,
            list_cmd: None,
        },
    ];

    assert_eq!(config.categorize_path("/opt/homebrew/bin/git"), "homebrew");
    assert_eq!(
        config.categorize_path("/Users/test/.cargo/bin/rustc"),
        "cargo"
    );
    assert_eq!(config.categorize_path("/usr/bin/ls"), "other");
}

#[test]
fn test_should_skip_dir() {
    let config = Config::default();

    assert!(config.should_skip_dir("/usr/bin"));
    assert!(config.should_skip_dir("/bin"));
    assert!(!config.should_skip_dir("/opt/homebrew/bin"));
}

#[test]
fn test_extract_cellar_package() {
    assert_eq!(
        scan::extract_cellar_package("/opt/homebrew/Cellar/python@3.13/3.13.11_1/libexec/bin/pip"),
        Some("python@3.13".to_string())
    );
    assert_eq!(
        scan::extract_cellar_package("/opt/homebrew/Cellar/git/2.44.0/bin/git"),
        Some("git".to_string())
    );
    assert_eq!(scan::extract_cellar_package("/opt/homebrew/bin/git"), None);
    assert_eq!(scan::extract_cellar_package("/usr/bin/ls"), None);
    assert_eq!(scan::extract_cellar_package("Cellar/"), None);
    assert_eq!(scan::extract_cellar_package(""), None);
}

#[test]
fn test_get_package_name_cellar_path() {
    // A daemon-recorded path that is itself a package-store path.
    let path = "/opt/homebrew/Cellar/python@3.13/3.13.11_1/libexec/bin/pip";
    assert_eq!(scan::get_package_name(path, None, "pip", "/Users/test"), "python@3.13");
}

#[test]
fn test_get_package_name_install_root() {
    let path = "/opt/oss-cad-suite/bin/yosys";
    assert_eq!(scan::get_package_name(path, None, "yosys", "/home/test"), "oss-cad-suite");
}

#[test]
fn test_get_package_name_fallback() {
    let path = "/some/random/path/mytool";
    assert_eq!(scan::get_package_name(path, None, "mytool", "/home/test"), "mytool");
}

#[test]
fn test_expand_tilde() {
    assert_eq!(scan::expand_tilde("/usr/bin", "/home/test"), "/usr/bin".to_string());
    let expanded = scan::expand_tilde("~/test", "/home/test");
    assert!(expanded.ends_with("/test"));
    assert!(!expanded.starts_with("~"));
    assert_eq!(expanded, "/home/test/test");
    assert_eq!(scan::expand_tilde("~", "/home/test"), "/home/test");
}

#[test]
fn package_name_prefers_the_symlink_target() {
    assert_eq!(
        scan::get_package_name(
            "/opt/homebrew/bin/git",
            Some("/opt/homebrew/Cellar/git/2.44.0/bin/git"),
            "git",
            "/Users/test",
        ),
        "git"
    );
}

#[test]
fn refine_source_spots_node_and_cask_shims() {
    assert_eq!(scan::refine_source(Some("../lib/node_modules/x/bin/x"), "homebrew"), "npm");
    assert_eq!(scan::refine_source(Some("/opt/homebrew/Caskroom/app/1/x"), "homebrew"), "cask");
    assert_eq!(scan::refine_source(Some("/elsewhere/x"), "homebrew"), "homebrew");
    assert_eq!(scan::refine_source(None, "local"), "local");
}

#[test]
fn fatrace_lines_parse_to_tracked_paths() {
    assert_eq!(
        linux_fatrace("10:30:01.123 bash(1234): O /usr/local/bin/tool"),
        Some("/usr/local/bin/tool".to_string())
    );
    assert_eq!(linux_fatrace("10:30:01.123 bash(1234): O /etc/passwd"), None);
    assert_eq!(linux_fatrace("garbage"), None);
}

fn linux_fatrace(line: &str) -> Option<String> {
    scan::parse_fatrace_line(line)
}

#[test]
fn daemon_skips_shells_and_system_shims() {
    assert!(scan::should_skip_path("/bin/sh"));
    assert!(scan::should_skip_path("/usr/bin/env"));
    assert!(scan::should_skip_path("/usr/libexec/thing"));
    assert!(!scan::should_skip_path("/usr/local/bin/tool"));
}

#[test]
fn scan_dirs_come_from_path_and_extras_minus_skips() {
    let mut config = Config::default();
    config.scan.extra_dirs = vec!["/opt/tools/bin".to_string(), "/usr/bin/extra".to_string()];
    let dirs = config.get_scan_dirs(Some("/usr/bin:/usr/local/bin:/home/u/.cargo/bin"));
    assert_eq!(
        dirs,
        vec![
            "/usr/local/bin".to_string(),
            "/home/u/.cargo/bin".to_string(),
            "/opt/tools/bin".to_string(),
        ]
    );
    let none = config.get_scan_dirs(None);
    assert_eq!(none, vec!["/opt/tools/bin".to_string()]);
}

#[test]
fn uninstall_and_list_commands_come_from_sources() {
    let mut config = Config::default();
    config.sources = vec![SourceDef {
        name: "homebrew".to_string(),
        path: "/opt/homebrew".to_string(),
        uninstall_cmd: Some("brew uninstall".to_string()),
        list_cmd: Some("brew list -1".to_string()),
    }];
    assert_eq!(config.get_uninstall_cmd("homebrew").as_deref(), Some("brew uninstall"));
    assert_eq!(config.get_uninstall_cmd("apt"), None);
    assert_eq!(config.get_list_cmd("homebrew").as_deref(), Some("brew list -1"));
    let with_list = config.get_sources_with_list_cmd();
    assert_eq!(with_list.len(), 1);
    assert_eq!(with_list[0].name, "homebrew");
}

#[test]
fn install_cmd_round_trips_from_uninstall() {
    assert_eq!(
        defaults::install_cmd_from_uninstall("brew uninstall").as_deref(),
        Some("brew install")
    );
    assert_eq!(
        defaults::install_cmd_from_uninstall("cargo uninstall").as_deref(),
        Some("cargo install")
    );
    assert_eq!(defaults::install_cmd_from_uninstall("rm -rf"), None);
}

#[test]
fn autoremove_hints_cover_known_sources() {
    assert_eq!(defaults::autoremove_hint("apt"), Some("sudo apt autoremove"));
    assert_eq!(defaults::autoremove_hint("homebrew"), Some("brew autoremove"));
    assert_eq!(defaults::autoremove_hint("go"), None);
}

#[test]
fn os_release_identifies_distros() {
    assert_eq!(
        distro::parse_os_release("NAME=\"Ubuntu\"\nID=ubuntu\nID_LIKE=debian\n"),
        Distro::Debian
    );
    assert_eq!(distro::parse_os_release("ID=\"arch\"\n"), Distro::Arch);
    assert_eq!(
        distro::parse_os_release("ID=weird\nID_LIKE=\"suse stuff\"\n"),
        Distro::OpenSUSE
    );
    assert_eq!(distro::parse_os_release("PRETTY_NAME=x\n"), Distro::Unknown);
    assert_eq!(distro::parse_os_release("ID=FEDORA\n"), Distro::Fedora);
}

#[test]
fn package_manager_follows_distro_then_availability() {
    let avail = vec!["dnf".to_string(), "pacman".to_string()];
    assert_eq!(distro::detect_package_manager(&Distro::Debian, &avail), PackageManager::Apt);
    assert_eq!(distro::detect_package_manager(&Distro::Fedora, &avail), PackageManager::Dnf);
    assert_eq!(distro::detect_package_manager(&Distro::Fedora, &vec![]), PackageManager::Yum);
    assert_eq!(distro::detect_package_manager(&Distro::Unknown, &avail), PackageManager::Dnf);
    assert_eq!(
        distro::detect_package_manager(&Distro::Unknown, &vec![]),
        PackageManager::Unknown
    );
}

#[test]
fn init_system_priority_is_systemd_first() {
    assert_eq!(
        distro::detect_init_system(true, true, true, true, true, true),
        InitSystem::Systemd
    );
    assert_eq!(
        distro::detect_init_system(false, true, false, false, false, false),
        InitSystem::OpenRC
    );
    assert_eq!(
        distro::detect_init_system(false, false, false, false, false, true),
        InitSystem::Runit
    );
    assert_eq!(
        distro::detect_init_system(false, false, true, false, false, false),
        InitSystem::SysV
    );
    assert_eq!(
        distro::detect_init_system(false, false, false, false, false, false),
        InitSystem::Unknown
    );
}

#[test]
fn fatrace_install_cmd_matches_package_manager() {
    let info = LinuxInfo {
        distro: Distro::Debian,
        package_manager: PackageManager::Apt,
        init_system: InitSystem::Systemd,
    };
    assert_eq!(
        info.fatrace_install_cmd(),
        Some(vec![
            "sudo".to_string(),
            "apt".to_string(),
            "install".to_string(),
            "-y".to_string(),
            "fatrace".to_string(),
        ])
    );
    let alpine = LinuxInfo {
        distro: Distro::Alpine,
        package_manager: PackageManager::Apk,
        init_system: InitSystem::OpenRC,
    };
    assert_eq!(alpine.fatrace_install_cmd(), None);
}

#[test]
fn ldd_output_parses_to_resolved_paths() {
    let out = "\tlinux-vdso.so.1 (0x00007ffd)\n\tlibssl.so.3 => /usr/lib/libssl.so.3 (0x00007f)\n\tlibc.so.6 => /usr/lib/libc.so.6 (0x00007f)\n\tlibmissing.so => not found\n";
    assert_eq!(linux::parse_ldd_output(out), vec!["/usr/lib/libssl.so.3".to_string()]);
}

#[test]
fn package_query_lines_parse() {
    assert_eq!(
        linux::parse_dpkg_line("libssl3:amd64: /usr/lib/x86_64-linux-gnu/libssl.so.3"),
        Some(("libssl3".to_string(), "/usr/lib/x86_64-linux-gnu/libssl.so.3".to_string()))
    );
    assert_eq!(linux::parse_dpkg_line("no such file"), None);
    assert_eq!(
        linux::parse_pacman_owner("/usr/lib/libfoo.so is owned by foo 1.2.3-4\n"),
        Some("foo".to_string())
    );
    assert_eq!(linux::parse_pacman_owner("error: nothing owns it"), None);
}

#[test]
fn package_sizes_parse_exactly() {
    let pacman = "Name            : foo\nInstalled Size  : 5.60 MiB\n";
    assert_eq!(linux::parse_pacman_size(pacman), Some(5872025));
    let rpm = "Name        : foo\nSize        : 123456\n";
    assert_eq!(linux::parse_rpm_size(rpm), Some(123456));
    assert_eq!(linux::parse_human_size("1.2 MiB"), Some(1258291));
    assert_eq!(linux::parse_human_size("340 KiB"), Some(348160));
    assert_eq!(linux::parse_human_size("2 GB"), Some(2147483648));
    assert_eq!(linux::parse_human_size("12"), None);
    assert_eq!(linux::parse_human_size("x MiB"), None);
}

#[test]
fn whole_number_parse_is_exact() {
    assert_eq!(linux::parse_u64("0"), Some(0));
    assert_eq!(linux::parse_u64("+42"), Some(42));
    assert_eq!(linux::parse_u64("18446744073709551615"), Some(u64::MAX));
    assert_eq!(linux::parse_u64("18446744073709551616"), None);
    assert_eq!(linux::parse_u64("12a"), None);
    assert_eq!(linux::parse_u64(""), None);
    assert_eq!(linux::parse_u64("+"), None);
}

#[test]
fn otool_output_parses_to_library_paths() {
    let out = "/opt/homebrew/bin/tool:\n\t/opt/homebrew/opt/libx/lib/libx.dylib (compatibility version 1.0.0)\n\t/usr/lib/libSystem.B.dylib (compatibility version 1.0.0)\n\t@rpath/librel.dylib (compatibility version 1.0.0)\n";
    assert_eq!(
        macos::parse_otool_output(out),
        vec!["/opt/homebrew/opt/libx/lib/libx.dylib".to_string()]
    );
}

#[test]
fn homebrew_packages_resolve_from_library_paths() {
    assert_eq!(
        macos::extract_homebrew_package("/opt/homebrew/opt/openssl@3/lib/libssl.dylib"),
        Some("openssl@3".to_string())
    );
    assert_eq!(
        macos::extract_homebrew_package("/usr/local/Cellar/foo/1.0/lib/libfoo.dylib"),
        Some("foo".to_string())
    );
    assert_eq!(macos::extract_homebrew_package("/usr/lib/libz.dylib"), None);
}

#[test]
fn du_sizes_scale_kilobytes() {
    assert_eq!(macos::parse_du_size("1234\t/opt/homebrew/Cellar/foo"), Some(1263616));
    assert_eq!(macos::parse_du_size(""), None);
}

#[test]
fn format_bytes_has_exact_units() {
    assert_eq!(ui::format_bytes(0), "0 B");
    assert_eq!(ui::format_bytes(512), "512 B");
    assert_eq!(ui::format_bytes(2048), "2 KB");
    assert_eq!(ui::format_bytes(1536), "2 KB");
    assert_eq!(ui::format_bytes(1258291), "1.2 MB");
    assert_eq!(ui::format_bytes(1073741824), "1.0 GB");
    assert_eq!(ui::format_bytes(1610612736), "1.5 GB");
}

#[test]
fn truncate_keeps_the_tail() {
    assert_eq!(ui::truncate_str("short", 10), "short");
    assert_eq!(ui::truncate_str("/very/long/path/to/bin", 10), ".../to/bin");
}

#[test]
fn shorten_path_applies_shorthands() {
    assert_eq!(ui::shorten_path("/opt/homebrew/bin/git", "/Users/u"), "brew:git");
    assert_eq!(ui::shorten_path("/usr/bin/ls", "/Users/u"), "/usr/ls");
    assert_eq!(ui::shorten_path("/Users/u/.cargo/bin/rg", "/Users/u"), "cargo:rg");
    assert_eq!(ui::shorten_path("/Users/u/bin/x", "/Users/u"), "~/bin/x");
    assert_eq!(ui::shorten_path("/elsewhere/x", "/Users/u"), "/elsewhere/x");
}

#[test]
fn install_roots_detect_from_paths() {
    let paths = vec![
        "/opt/anaconda3/bin/python".to_string(),
        "/opt/anaconda3/bin/conda".to_string(),
        "/usr/local/go/bin/go".to_string(),
        "/elsewhere/x".to_string(),
    ];
    assert_eq!(
        ui::detect_install_roots(&paths, "/home/u"),
        vec!["/opt/anaconda3".to_string(), "/usr/local/go".to_string()]
    );
}

#[test]
fn service_files_embed_the_executable() {
    let unit = linux::Daemon::generate_systemd_service("/usr/local/bin/dusty");
    assert!(unit.contains("ExecStart=/usr/local/bin/dusty daemon"));
    assert!(unit.contains("Restart=always"));
    let rc = linux::Daemon::generate_openrc_service("/usr/local/bin/dusty");
    assert!(rc.contains("command=\"/usr/local/bin/dusty\""));
    let run = linux::Daemon::generate_runit_run("/usr/local/bin/dusty");
    assert_eq!(run, "#!/bin/sh\nexec /usr/local/bin/dusty daemon\n");
    let plist = macos::Daemon::generate_plist("/usr/local/bin/dusty", "/Users/u");
    assert!(plist.contains("<string>/usr/local/bin/dusty</string>"));
    assert!(plist.contains("<string>/Users/u</string>"));
    assert_eq!(macos::Daemon::plist_path(), "/Library/LaunchDaemons/com.dusty.daemon.plist");
    assert_eq!(macos::Daemon::log_dir(), "/var/log/dusty");
    assert_eq!(linux::Daemon::openrc_service_path(), "/etc/init.d/dusty");
}

#[test]
fn default_scan_config_is_sane() {
    let sc = ScanConfig::default();
    assert!(sc.path);
    assert_eq!(sc.skip_dirs, vec!["/usr/bin", "/usr/sbin", "/bin", "/sbin"]);
    assert_eq!(sc.skip_prefixes, vec!["/usr/libexec/", "/usr/lib/"]);
    assert!(sc.extra_dirs.is_empty());
    assert!(sc.ignore_binaries.is_empty());
}
