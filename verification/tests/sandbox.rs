use slopwrap::sandbox::{
    blocked_children, blocked_paths, host_probes, is_directly_blocked, HostEnv, SandboxConfig,
};

const HOME: &str = "/home/test";

fn host() -> HostEnv {
    host_with(HOME, &["/etc/passwd", "/etc/group", "/etc/resolv.conf", "/usr/lib64"])
}

fn host_with(home: &str, existing: &[&str]) -> HostEnv {
    HostEnv {
        home: Some(home.to_string()),
        user: Some("tester".to_string()),
        path: Some("/usr/bin:/bin".to_string()),
        term: None,
        lang: None,
        shell: None,
        existing: existing.iter().map(|s| s.to_string()).collect(),
    }
}

fn make_config(no_net: bool) -> SandboxConfig {
    SandboxConfig {
        repo_root: "/tmp/repo".to_string(),
        upperdir: "/tmp/overlay/upper".to_string(),
        workdir: "/tmp/overlay/work".to_string(),
        no_net,
        ro_binds: vec![],
        rw_binds: vec![],
        env_passthrough: vec![],
        command: vec!["bash".into()],
    }
}

/// True when `path` follows a bind-mount flag in `args`.
fn is_bind_mounted_in(path: &str, args: &[String]) -> bool {
    let bind_flags = ["--ro-bind", "--bind", "--ro-bind-try", "--bind-try"];
    args.windows(2)
        .any(|w| bind_flags.contains(&w[0].as_str()) && w[1] == path)
}

const BLOCKED: [&str; 5] = [".ssh", ".gnupg", ".aws", ".azure", ".config/gcloud"];

#[test]
fn default_args_contain_unshare_all() {
    let args = make_config(false).build_args(&host());
    assert!(args.contains(&"--unshare-all".to_string()));
}

#[test]
fn default_args_contain_share_net() {
    let args = make_config(false).build_args(&host());
    assert!(args.contains(&"--share-net".to_string()));
}

#[test]
fn no_net_omits_share_net() {
    let args = make_config(true).build_args(&host());
    assert!(!args.contains(&"--share-net".to_string()));
    assert!(args.contains(&"--unshare-all".to_string()));
}

#[test]
fn blocked_paths_never_bind_mounted() {
    let args = make_config(false).build_args(&host());
    for blocked in BLOCKED {
        let full = format!("{HOME}/{blocked}");
        assert!(
            !is_bind_mounted_in(&full, &args),
            "blocked path {full} is bind-mounted"
        );
    }
}

#[test]
fn overlay_flags_reference_correct_paths() {
    let cfg = make_config(false);
    let args = cfg.build_args(&host());
    let joined = args.join(" ");
    assert!(joined.contains("--overlay-src /tmp/repo"));
    assert!(joined.contains("--overlay /tmp/overlay/upper /tmp/overlay/work /tmp/repo"));
}

#[test]
fn command_appears_after_separator() {
    let args = make_config(false).build_args(&host());
    let sep_pos = args.iter().position(|a| a == "--").unwrap();
    assert_eq!(args[sep_pos + 1], "bash");
}

#[test]
fn hostname_set_to_slopwrap() {
    let args = make_config(false).build_args(&host());
    let idx = args.iter().position(|a| a == "--hostname").unwrap();
    assert_eq!(args[idx + 1], "slopwrap");
}

#[test]
fn die_with_parent_present() {
    let args = make_config(false).build_args(&host());
    assert!(args.contains(&"--die-with-parent".to_string()));
}

#[test]
fn ro_bind_appears_in_args() {
    let mut cfg = make_config(false);
    cfg.ro_binds = vec!["/tmp/myconfig".to_string()];
    let args = cfg.build_args(&host());
    let idx = args.iter().position(|a| a == "/tmp/myconfig").unwrap();
    assert_eq!(args[idx - 1], "--ro-bind");
}

#[test]
fn rw_bind_appears_in_args() {
    let mut cfg = make_config(false);
    cfg.rw_binds = vec!["/tmp/mystate".to_string()];
    let args = cfg.build_args(&host());
    let idx = args.iter().position(|a| a == "/tmp/mystate").unwrap();
    assert_eq!(args[idx - 1], "--bind");
}

#[test]
fn multiple_binds_all_present() {
    let mut cfg = make_config(false);
    cfg.ro_binds = vec!["/tmp/a".to_string(), "/tmp/b".to_string()];
    cfg.rw_binds = vec!["/tmp/c".to_string()];
    let args = cfg.build_args(&host());
    assert!(args.contains(&"/tmp/a".to_string()));
    assert!(args.contains(&"/tmp/b".to_string()));
    assert!(args.contains(&"/tmp/c".to_string()));
}

// --- is_directly_blocked / blocked_children ---

#[test]
fn blocked_child_does_not_block_parent() {
    let home = "/home/test";
    let blocked = blocked_paths(home);
    let config = format!("{home}/.config");
    assert!(!is_directly_blocked(&config, &blocked));
}

#[test]
fn blocked_child_is_still_blocked() {
    let home = "/home/test";
    let blocked = blocked_paths(home);
    let gcloud = format!("{home}/.config/gcloud");
    assert!(is_directly_blocked(&gcloud, &blocked));
}

#[test]
fn blocked_exact_match() {
    let home = "/home/test";
    let blocked = blocked_paths(home);
    assert!(is_directly_blocked(&format!("{home}/.ssh"), &blocked));
}

#[test]
fn blocked_descendant() {
    let home = "/home/test";
    let blocked = blocked_paths(home);
    assert!(is_directly_blocked(
        &format!("{home}/.ssh/keys/id_rsa"),
        &blocked,
    ));
}

#[test]
fn unrelated_path_not_blocked() {
    let home = "/home/test";
    let blocked = blocked_paths(home);
    assert!(!is_directly_blocked(&format!("{home}/.local"), &blocked));
}

#[test]
fn config_has_gcloud_as_blocked_child() {
    let home = "/home/test";
    let blocked = blocked_paths(home);
    let config = format!("{home}/.config");
    let children = blocked_children(&config, &blocked);
    assert_eq!(children.len(), 1);
    assert_eq!(children[0], format!("{home}/.config/gcloud"));
}

#[test]
fn ssh_has_no_blocked_children() {
    let home = "/home/test";
    let blocked = blocked_paths(home);
    // .ssh is directly blocked — not a parent with blocked children
    assert!(blocked_children(&format!("{home}/.ssh"), &blocked).is_empty());
}

// --- --clearenv / env isolation ---

#[test]
fn clearenv_present_in_args() {
    let args = make_config(false).build_args(&host());
    assert!(args.contains(&"--clearenv".to_string()));
}

#[test]
fn home_setenv_in_args() {
    let args = make_config(false).build_args(&host());
    let home = HOME;
    assert!(
        args.windows(3)
            .any(|w| w[0] == "--setenv" && w[1] == "HOME" && w[2] == home),
        "expected --setenv HOME {home}"
    );
}

#[test]
fn path_setenv_in_args() {
    let args = make_config(false).build_args(&host());
    assert!(
        args.windows(2).any(|w| w[0] == "--setenv" && w[1] == "PATH"),
        "expected --setenv PATH"
    );
}

#[test]
fn term_setenv_in_args() {
    let args = make_config(false).build_args(&host());
    assert!(
        args.windows(2).any(|w| w[0] == "--setenv" && w[1] == "TERM"),
        "expected --setenv TERM"
    );
}

#[test]
fn dbus_not_in_setenv() {
    let args = make_config(false).build_args(&host());
    assert!(
        !args
            .windows(2)
            .any(|w| w[0] == "--setenv" && w[1] == "DBUS_SESSION_BUS_ADDRESS"),
        "DBUS_SESSION_BUS_ADDRESS must not leak into sandbox"
    );
}

#[test]
fn display_not_in_setenv() {
    let args = make_config(false).build_args(&host());
    assert!(
        !args
            .windows(2)
            .any(|w| w[0] == "--setenv" && (w[1] == "DISPLAY" || w[1] == "WAYLAND_DISPLAY")),
        "DISPLAY/WAYLAND_DISPLAY must not leak into sandbox"
    );
}

#[test]
fn env_passthrough_appears_in_args() {
    let mut cfg = make_config(false);
    cfg.env_passthrough = vec![("MY_VAR".into(), "my_val".into())];
    let args = cfg.build_args(&host());
    assert!(args.windows(3).any(|w| w[0] == "--setenv"
        && w[1] == "MY_VAR"
        && w[2] == "my_val"));
}

// --- /etc/passwd and /etc/group ---

#[test]
fn passwd_in_etc_mounts() {
    let args = make_config(false).build_args(&host());
    assert!(args.contains(&"/etc/passwd".to_string()));
}

#[test]
fn group_in_etc_mounts() {
    let args = make_config(false).build_args(&host());
    assert!(args.contains(&"/etc/group".to_string()));
}

// --- Property-based tests ---

fn arb_path(u: &mut arbtest::arbitrary::Unstructured) -> arbtest::arbitrary::Result<String> {
    let len: usize = u.int_in_range(1..=8)?;
    let mut s = String::from("/tmp/");
    for _ in 0..len {
        let c = u.int_in_range(b'a'..=b'z')?;
        s.push(c as char);
    }
    Ok(s)
}

fn arb_paths(
    u: &mut arbtest::arbitrary::Unstructured,
) -> arbtest::arbitrary::Result<Vec<String>> {
    let len: usize = u.int_in_range(0..=3)?;
    (0..len).map(|_| arb_path(u)).collect()
}

fn arb_config(
    u: &mut arbtest::arbitrary::Unstructured,
) -> arbtest::arbitrary::Result<SandboxConfig> {
    Ok(SandboxConfig {
        repo_root: arb_path(u)?,
        upperdir: arb_path(u)?,
        workdir: arb_path(u)?,
        no_net: u.arbitrary()?,
        ro_binds: arb_paths(u)?,
        rw_binds: arb_paths(u)?,
        env_passthrough: vec![],
        command: vec!["test-cmd".into()],
    })
}

/// A host whose blocked paths all exist, so that every hiding rule fires.
fn busy_host() -> HostEnv {
    let mut existing: Vec<String> = host_probes(HOME);
    existing.push("/etc/ssl".to_string());
    HostEnv { existing, ..host() }
}

#[test]
fn prop_blocked_paths_never_bind_mounted() {
    arbtest::arbtest(|u| {
        let cfg = arb_config(u)?;
        let args = cfg.build_args(&busy_host());
        for blocked in BLOCKED {
            let full = format!("{HOME}/{blocked}");
            assert!(
                !is_bind_mounted_in(&full, &args),
                "blocked path {full} is bind-mounted"
            );
        }
        Ok(())
    });
}

#[test]
fn prop_unshare_all_always_present() {
    arbtest::arbtest(|u| {
        let cfg = arb_config(u)?;
        let args = cfg.build_args(&host());
        assert!(args.contains(&"--unshare-all".to_string()));
        Ok(())
    });
}

#[test]
fn prop_share_net_iff_not_no_net() {
    arbtest::arbtest(|u| {
        let cfg = arb_config(u)?;
        let no_net = cfg.no_net;
        let args = cfg.build_args(&host());
        if no_net {
            assert!(!args.contains(&"--share-net".to_string()));
        } else {
            assert!(args.contains(&"--share-net".to_string()));
        }
        Ok(())
    });
}

#[test]
fn prop_clearenv_always_present() {
    arbtest::arbtest(|u| {
        let cfg = arb_config(u)?;
        let args = cfg.build_args(&host());
        assert!(args.contains(&"--clearenv".to_string()));
        Ok(())
    });
}

#[test]
fn prop_no_env_leak() {
    let forbidden = [
        "DBUS_SESSION_BUS_ADDRESS",
        "DISPLAY",
        "WAYLAND_DISPLAY",
        "XDG_RUNTIME_DIR",
    ];
    arbtest::arbtest(|u| {
        let cfg = arb_config(u)?;
        let args = cfg.build_args(&host());
        for var in &forbidden {
            assert!(
                !args
                    .windows(2)
                    .any(|w| w[0] == "--setenv" && w[1] == *var),
                "forbidden env var {var} leaked into --setenv"
            );
        }
        Ok(())
    });
}

// --- Further cases ---

#[test]
fn exact_argument_list_for_minimal_host() {
    let cfg = make_config(true);
    let h = HostEnv {
        home: None,
        user: None,
        path: None,
        term: None,
        lang: None,
        shell: None,
        existing: vec![],
    };
    let args = cfg.build_args(&h);
    let expected: Vec<&str> = vec![
        "--unshare-all", "--die-with-parent", "--hostname", "slopwrap",
        "--clearenv",
        "--setenv", "HOME", "/root",
        "--setenv", "USER", "nobody",
        "--setenv", "PATH", "/usr/bin:/bin",
        "--setenv", "TERM", "xterm",
        "--setenv", "LANG", "C.UTF-8",
        "--setenv", "SHELL", "/bin/sh",
        "--dev", "/dev", "--proc", "/proc", "--tmpfs", "/tmp",
        "--ro-bind", "/usr", "/usr",
        "--symlink", "usr/lib", "/lib", "--symlink", "usr/bin", "/bin",
        "--symlink", "usr/sbin", "/sbin",
        "--tmpfs", "/root",
        "--ro-bind-try", "/root/.config", "/root/.config",
        "--ro-bind-try", "/root/.local", "/root/.local",
        "--bind-try", "/root/.cache", "/root/.cache",
        "--ro-bind-try", "/root/.bashrc", "/root/.bashrc",
        "--ro-bind-try", "/root/.profile", "/root/.profile",
        "--ro-bind-try", "/root/.gitconfig", "/root/.gitconfig",
        "--overlay-src", "/tmp/repo",
        "--overlay", "/tmp/overlay/upper", "/tmp/overlay/work", "/tmp/repo",
        "--chdir", "/tmp/repo",
        "--", "bash",
    ];
    assert_eq!(args, expected);
}

#[test]
fn existing_gcloud_is_hidden_under_config() {
    let mut h = host();
    h.existing.push(format!("{HOME}/.config/gcloud"));
    let args = make_config(false).build_args(&h);
    let hidden = format!("{HOME}/.config/gcloud");
    assert!(args.windows(2).any(|w| w[0] == "--tmpfs" && w[1] == hidden));
    assert!(!is_bind_mounted_in(&hidden, &args));
}

#[test]
fn lib64_symlink_only_when_present() {
    let with = make_config(false).build_args(&host());
    assert!(with.contains(&"/lib64".to_string()));
    let without = make_config(false).build_args(&host_with(HOME, &[]));
    assert!(!without.contains(&"/lib64".to_string()));
}

#[test]
fn blocked_home_paths_depend_on_home_spelling() {
    let blocked = blocked_paths("/home/test/");
    assert_eq!(blocked[0], "/home/test/.ssh");
    assert!(is_directly_blocked("/home//test/.ssh/", &blocked));
    assert!(!is_directly_blocked("/home/test/.sshx", &blocked));
    let empty = blocked_paths("");
    assert_eq!(empty[4], ".config/gcloud");
}

#[test]
fn probes_list_blocked_paths_last() {
    let probes = host_probes(HOME);
    assert_eq!(probes.len(), 3 + 13 + 3 + 5);
    assert_eq!(probes[0], "/nix");
    assert_eq!(probes[probes.len() - 1], format!("{HOME}/.config/gcloud"));
}

#[test]
fn host_values_that_look_like_options_leak_nothing() {
    let forbidden = ["DBUS_SESSION_BUS_ADDRESS", "DISPLAY", "WAYLAND_DISPLAY", "XDG_RUNTIME_DIR"];
    let h = HostEnv {
        home: Some("--bind".to_string()),
        user: Some("--setenv".to_string()),
        path: Some("--ro-bind".to_string()),
        term: Some("--setenv".to_string()),
        lang: Some("DISPLAY".to_string()),
        shell: Some("--setenv".to_string()),
        existing: vec!["--bind/.ssh".to_string(), "--bind/.config/gcloud".to_string()],
    };
    let args = make_config(false).build_args(&h);
    for w in args.windows(2) {
        if w[0] == "--setenv" {
            assert!(!forbidden.contains(&w[1].as_str()), "{} set", w[1]);
        }
    }
    for b in BLOCKED {
        assert!(!is_bind_mounted_in(&format!("--bind/{b}"), &args));
    }
}

#[test]
fn user_bind_of_blocked_path_is_mounted_as_asked() {
    let mut cfg = make_config(false);
    cfg.rw_binds = vec![format!("{HOME}/.ssh")];
    let args = cfg.build_args(&host());
    assert!(is_bind_mounted_in(&format!("{HOME}/.ssh"), &args));
    assert!(!is_bind_mounted_in(&format!("{HOME}/.gnupg"), &args));
}
