//! The bubblewrap argument list that isolates a command: its own namespaces,
//! a cleared environment, a read-only system, a home directory that hides
//! credentials, and the repository mounted through an overlay.
use vstd::prelude::*;
use crate::paths::{
    components, join, join_spec, path_starts_with, push_text, same_path, same_path_exec,
    starts_with, string_views, text_equal,
};

verus! {

broadcast use Seq::lemma_filter_push;

/// What the sandbox runs and how.
pub struct SandboxConfig {
    pub repo_root: String,
    pub upperdir: String,
    pub workdir: String,
    pub no_net: bool,
    pub ro_binds: Vec<String>,
    pub rw_binds: Vec<String>,
    pub env_passthrough: Vec<(String, String)>,
    pub command: Vec<String>,
}

/// What the host offers the sandbox: the values of the environment variables
/// it copies (`None` where a variable is unset or not Unicode), and which of
/// the paths of `host_probes` exist.
pub struct HostEnv {
    pub home: Option<String>,
    pub user: Option<String>,
    pub path: Option<String>,
    pub term: Option<String>,
    pub lang: Option<String>,
    pub shell: Option<String>,
    pub existing: Vec<String>,
}

/// A variable's value, or `default` when it is missing.
pub open spec fn env_or(v: Option<String>, default: Seq<char>) -> Seq<char> {
    match v {
        Some(s) => s@,
        None => default,
    }
}

/// The home directory the sandbox uses.
pub open spec fn host_home(h: HostEnv) -> Seq<char> {
    env_or(h.home, "/root"@)
}

/// The path exists on the host.
pub open spec fn host_has(h: HostEnv, p: Seq<char>) -> bool {
    string_views(h.existing@).contains(p)
}

// ---------------------------------------------------------------------------
// Credentials that are never mounted.
// ---------------------------------------------------------------------------

/// The paths under the home directory that must never be mounted.
pub open spec fn blocked_names() -> Seq<Seq<char>> {
    seq![".ssh"@, ".gnupg"@, ".aws"@, ".azure"@, ".config/gcloud"@]
}

/// The blocked paths for a home directory: each name joined to it.
pub open spec fn blocked_paths_spec(home: Seq<char>) -> Seq<Seq<char>> {
    blocked_names().map_values(|n: Seq<char>| join_spec(home, n))
}

/// `path` is a blocked path or lies below one.
pub open spec fn directly_blocked(path: Seq<char>, blocked: Seq<Seq<char>>) -> bool {
    exists|i: int|
        0 <= i < blocked.len() && (same_path(path, #[trigger] blocked[i]) || path_starts_with(
            path,
            blocked[i],
        ))
}

/// The blocked path lies strictly below `path`.
pub open spec fn strictly_below(path: Seq<char>) -> spec_fn(Seq<char>) -> bool {
    |b: Seq<char>| path_starts_with(b, path) && !same_path(b, path)
}

/// The blocked paths that lie strictly below `path`, in order.
pub open spec fn blocked_children_spec(path: Seq<char>, blocked: Seq<Seq<char>>) -> Seq<Seq<char>> {
    blocked.filter(strictly_below(path))
}

/// The paths that must never be mounted, for a home directory.
pub fn blocked_paths(home: &str) -> (r: Vec<String>)
    ensures
        string_views(r@) == blocked_paths_spec(home@),
{
    let mut r: Vec<String> = Vec::new();
    r.push(join(home, ".ssh"));
    r.push(join(home, ".gnupg"));
    r.push(join(home, ".aws"));
    r.push(join(home, ".azure"));
    r.push(join(home, ".config/gcloud"));
    assert(string_views(r@) =~= blocked_paths_spec(home@));
    r
}

/// True when `path` itself is blocked or is a descendant of a blocked dir.
pub fn is_directly_blocked(path: &str, blocked: &Vec<String>) -> (r: bool)
    ensures
        r == directly_blocked(path@, string_views(blocked@)),
{
    let ghost bs = string_views(blocked@);
    let mut i: usize = 0;
    while i < blocked.len()
        invariant
            i <= blocked.len(),
            bs == string_views(blocked@),
            forall|j: int|
                0 <= j < i ==> !(same_path(path@, #[trigger] bs[j]) || path_starts_with(
                    path@,
                    bs[j],
                )),
        decreases blocked.len() - i,
    {
        let b = blocked[i].as_str();
        if same_path_exec(path, b) || starts_with(path, b) {
            assert(bs[i as int] == b@);
            return true;
        }
        i = i + 1;
    }
    false
}

/// Returns blocked paths that are strict children of `path`.
pub fn blocked_children(path: &str, blocked: &Vec<String>) -> (r: Vec<String>)
    ensures
        string_views(r@) == blocked_children_spec(path@, string_views(blocked@)),
{
    let ghost bs = string_views(blocked@);
    let mut r: Vec<String> = Vec::new();
    let mut i: usize = 0;
    while i < blocked.len()
        invariant
            i <= blocked.len(),
            bs == string_views(blocked@),
            string_views(r@) == bs.subrange(0, i as int).filter(strictly_below(path@)),
        decreases blocked.len() - i,
    {
        let b = blocked[i].as_str();
        assert(bs.subrange(0, i + 1) =~= bs.subrange(0, i as int).push(b@));
        if starts_with(b, path) && !same_path_exec(b, path) {
            push_text(&mut r, b);
        }
        i = i + 1;
    }
    assert(bs.subrange(0, blocked.len() as int) =~= bs);
    r
}

// ---------------------------------------------------------------------------
// The argument list, segment by segment.
// ---------------------------------------------------------------------------

/// Namespace isolation: all namespaces unshared, the network shared back
/// unless it is switched off, the sandbox dies with its parent, and its
/// hostname is `slopwrap`.
pub open spec fn namespace_args(no_net: bool) -> Seq<Seq<char>> {
    seq!["--unshare-all"@] + (if !no_net {
        seq!["--share-net"@]
    } else {
        Seq::empty()
    }) + seq!["--die-with-parent"@, "--hostname"@, "slopwrap"@]
}

/// `--setenv key value`.
pub open spec fn setenv(key: Seq<char>, value: Seq<char>) -> Seq<Seq<char>> {
    seq!["--setenv"@, key, value]
}

/// `--setenv key value` for each passed-through variable, in order.
pub open spec fn passthrough_args(vars: Seq<(String, String)>) -> Seq<Seq<char>>
    decreases vars.len(),
{
    if vars.len() == 0 {
        Seq::empty()
    } else {
        passthrough_args(vars.drop_last()) + setenv(vars.last().0@, vars.last().1@)
    }
}

/// Environment isolation: the inherited environment is cleared and only a
/// safe subset is set, then the variables passed through.
pub open spec fn env_args(h: HostEnv, vars: Seq<(String, String)>) -> Seq<Seq<char>> {
    seq!["--clearenv"@] + setenv("HOME"@, host_home(h)) + setenv("USER"@, env_or(h.user, "nobody"@))
        + setenv("PATH"@, env_or(h.path, "/usr/bin:/bin"@)) + setenv(
        "TERM"@,
        env_or(h.term, "xterm"@),
    ) + setenv("LANG"@, env_or(h.lang, "C.UTF-8"@)) + setenv("SHELL"@, env_or(h.shell, "/bin/sh"@))
        + passthrough_args(vars)
}

/// `flag p p` when `p` exists on the host.
pub open spec fn bind_if(h: HostEnv, flag: Seq<char>, p: Seq<char>) -> Seq<Seq<char>> {
    if host_has(h, p) {
        seq![flag, p, p]
    } else {
        Seq::empty()
    }
}

/// `flag p p` for each of `ps` that exists on the host, in order.
pub open spec fn bind_each_existing(h: HostEnv, flag: Seq<char>, ps: Seq<Seq<char>>) -> Seq<Seq<char>>
    decreases ps.len(),
{
    if ps.len() == 0 {
        Seq::empty()
    } else {
        bind_each_existing(h, flag, ps.drop_last()) + bind_if(h, flag, ps.last())
    }
}

/// The files of `/etc` that the sandbox sees where the host has them.
pub open spec fn etc_paths() -> Seq<Seq<char>> {
    seq![
        "/etc/resolv.conf"@,
        "/etc/ssl"@,
        "/etc/ld.so.cache"@,
        "/etc/ld.so.conf"@,
        "/etc/ld.so.conf.d"@,
        "/etc/hosts"@,
        "/etc/nsswitch.conf"@,
        "/etc/localtime"@,
        "/etc/passwd"@,
        "/etc/group"@,
        "/etc/alternatives"@,
        "/etc/profile.d"@,
        "/etc/profiles"@,
    ]
}

/// The parts of `/usr/share` that the sandbox sees where the host has them.
pub open spec fn share_paths() -> Seq<Seq<char>> {
    seq!["/usr/share/ca-certificates"@, "/usr/share/terminfo"@, "/usr/share/zoneinfo"@]
}

/// The start of the system part: `/dev`, `/proc`, a fresh `/tmp`, `/usr`.
pub open spec fn base_system_args() -> Seq<Seq<char>> {
    seq!["--dev"@, "/dev"@, "--proc"@, "/proc"@, "--tmpfs"@, "/tmp"@, "--ro-bind"@, "/usr"@, "/usr"@]
}

/// The usual symlinks into `/usr`.
pub open spec fn symlink_args() -> Seq<Seq<char>> {
    seq![
        "--symlink"@,
        "usr/lib"@,
        "/lib"@,
        "--symlink"@,
        "usr/bin"@,
        "/bin"@,
        "--symlink"@,
        "usr/sbin"@,
        "/sbin"@,
    ]
}

/// `/lib64`, where the host has `/usr/lib64`.
pub open spec fn lib64_args(h: HostEnv) -> Seq<Seq<char>> {
    if host_has(h, "/usr/lib64"@) {
        seq!["--symlink"@, "usr/lib64"@, "/lib64"@]
    } else {
        Seq::empty()
    }
}

/// The system, read-only: `/dev`, `/proc`, a fresh `/tmp`, `/usr`, the NixOS
/// store, the usual symlinks into `/usr`, and a chosen part of `/etc` and
/// `/usr/share`, each where the host has it.
pub open spec fn system_args(h: HostEnv) -> Seq<Seq<char>> {
    base_system_args() + bind_if(h, "--ro-bind"@, "/nix"@) + bind_if(
        h,
        "--ro-bind"@,
        "/run/current-system"@,
    ) + symlink_args() + lib64_args(h) + bind_each_existing(h, "--ro-bind"@, etc_paths())
        + bind_each_existing(h, "--ro-bind"@, share_paths())
}

/// `--tmpfs c` for each of `children` that exists on the host.
pub open spec fn hide_existing(h: HostEnv, children: Seq<Seq<char>>) -> Seq<Seq<char>>
    decreases children.len(),
{
    if children.len() == 0 {
        Seq::empty()
    } else {
        hide_existing(h, children.drop_last()) + (if host_has(h, children.last()) {
            seq!["--tmpfs"@, children.last()]
        } else {
            Seq::empty()
        })
    }
}

/// A home directory mounted with `flag` unless it is blocked, with the
/// blocked paths below it that exist hidden under empty file systems.
pub open spec fn home_dir_args(h: HostEnv, flag: Seq<char>, src: Seq<char>) -> Seq<Seq<char>> {
    let blocked = blocked_paths_spec(host_home(h));
    if directly_blocked(src, blocked) {
        Seq::empty()
    } else {
        seq![flag, src, src] + hide_existing(h, blocked_children_spec(src, blocked))
    }
}

/// A home file mounted read-only (if present) unless it is blocked.
pub open spec fn home_file_args(h: HostEnv, src: Seq<char>) -> Seq<Seq<char>> {
    if directly_blocked(src, blocked_paths_spec(host_home(h))) {
        Seq::empty()
    } else {
        seq!["--ro-bind-try"@, src, src]
    }
}

/// The home directory: an empty file system, with configuration and data
/// read-only, the cache writable, and the shell and git configuration
/// read-only, never exposing a blocked path.
pub open spec fn home_args(h: HostEnv) -> Seq<Seq<char>> {
    let home = host_home(h);
    seq!["--tmpfs"@, home] + home_dir_args(h, "--ro-bind-try"@, home + "/.config"@) + home_dir_args(
        h,
        "--ro-bind-try"@,
        home + "/.local"@,
    ) + home_dir_args(h, "--bind-try"@, home + "/.cache"@) + home_file_args(h, home + "/.bashrc"@)
        + home_file_args(h, home + "/.profile"@) + home_file_args(h, home + "/.gitconfig"@)
}

/// `flag p p` for each path, in order.
pub open spec fn binds_args(flag: Seq<char>, ps: Seq<Seq<char>>) -> Seq<Seq<char>>
    decreases ps.len(),
{
    if ps.len() == 0 {
        Seq::empty()
    } else {
        binds_args(flag, ps.drop_last()) + seq![flag, ps.last(), ps.last()]
    }
}

/// The repository mounted through the overlay, the working directory, the
/// separator and the command.
pub open spec fn tail_args(c: SandboxConfig) -> Seq<Seq<char>> {
    seq![
        "--overlay-src"@,
        c.repo_root@,
        "--overlay"@,
        c.upperdir@,
        c.workdir@,
        c.repo_root@,
        "--chdir"@,
        c.repo_root@,
        "--"@,
    ] + string_views(c.command@)
}

/// The whole argument list.
pub open spec fn sandbox_args(c: SandboxConfig, h: HostEnv) -> Seq<Seq<char>> {
    namespace_args(c.no_net) + env_args(h, c.env_passthrough@) + system_args(h) + home_args(h)
        + binds_args("--ro-bind"@, string_views(c.ro_binds@)) + binds_args(
        "--bind"@,
        string_views(c.rw_binds@),
    ) + tail_args(c)
}

/// The paths whose existence the argument list depends on.
pub open spec fn host_probes_spec(home: Seq<char>) -> Seq<Seq<char>> {
    seq!["/nix"@, "/run/current-system"@, "/usr/lib64"@] + etc_paths() + share_paths()
        + blocked_paths_spec(home)
}

/// Whether `p` is among the host's existing paths.
fn host_has_exec(h: &HostEnv, p: &str) -> (r: bool)
    ensures
        r == host_has(*h, p@),
{
    let ghost ex = string_views(h.existing@);
    let mut i: usize = 0;
    while i < h.existing.len()
        invariant
            i <= h.existing.len(),
            ex == string_views(h.existing@),
            forall|j: int| 0 <= j < i ==> ex[j] != p@,
        decreases h.existing.len() - i,
    {
        if text_equal(h.existing[i].as_str(), p) {
            assert(ex[i as int] == p@);
            return true;
        }
        i = i + 1;
    }
    false
}

/// A variable's value, or `default`.
fn env_value(v: &Option<String>, default: &str) -> (r: String)
    ensures
        r@ == env_or(*v, default@),
{
    match v {
        Some(s) => s.clone(),
        None => default.to_owned(),
    }
}

/// The home directory the sandbox uses.
pub fn home_dir(h: &HostEnv) -> (r: String)
    ensures
        r@ == host_home(*h),
{
    env_value(&h.home, "/root")
}

/// The paths whose existence `build_args` consults, for a home directory.
pub fn host_probes(home: &str) -> (r: Vec<String>)
    ensures
        string_views(r@) == host_probes_spec(home@),
{
    let mut r: Vec<String> = Vec::new();
    push_text(&mut r, "/nix");
    push_text(&mut r, "/run/current-system");
    push_text(&mut r, "/usr/lib64");
    assert(string_views(r@) =~= seq!["/nix"@, "/run/current-system"@, "/usr/lib64"@]);
    append_texts(&mut r, etc_paths_exec());
    append_texts(&mut r, share_paths_exec());
    append_texts(&mut r, blocked_paths(home));
    assert(string_views(r@) =~= host_probes_spec(home@));
    r
}

fn append_texts(args: &mut Vec<String>, more: Vec<String>)
    ensures
        string_views(final(args)@) == string_views(old(args)@) + string_views(more@),
{
    let mut more = more;
    let ghost m = more@;
    args.append(&mut more);
    assert(string_views(args@) =~= string_views(old(args)@) + string_views(m));
}

fn push_setenv(args: &mut Vec<String>, key: &str, value: &str)
    ensures
        string_views(final(args)@) == string_views(old(args)@) + setenv(key@, value@),
{
    push_text(args, "--setenv");
    push_text(args, key);
    push_text(args, value);
    assert(string_views(args@) =~= string_views(old(args)@) + setenv(key@, value@));
}

fn push_bind_if(args: &mut Vec<String>, h: &HostEnv, flag: &str, p: &str)
    ensures
        string_views(final(args)@) == string_views(old(args)@) + bind_if(*h, flag@, p@),
{
    if host_has_exec(h, p) {
        push_text(args, flag);
        push_text(args, p);
        push_text(args, p);
        assert(string_views(args@) =~= string_views(old(args)@) + bind_if(*h, flag@, p@));
    } else {
        assert(string_views(args@) =~= string_views(old(args)@) + bind_if(*h, flag@, p@));
    }
}

fn push_namespace(args: &mut Vec<String>, no_net: bool)
    ensures
        string_views(final(args)@) == string_views(old(args)@) + namespace_args(no_net),
{
    push_text(args, "--unshare-all");
    if !no_net {
        push_text(args, "--share-net");
    }
    push_text(args, "--die-with-parent");
    push_text(args, "--hostname");
    push_text(args, "slopwrap");
    assert(string_views(args@) =~= string_views(old(args)@) + namespace_args(no_net));
}

fn push_env(args: &mut Vec<String>, h: &HostEnv, vars: &Vec<(String, String)>)
    ensures
        string_views(final(args)@) == string_views(old(args)@) + env_args(*h, vars@),
{
    push_text(args, "--clearenv");
    let home = home_dir(h);
    push_setenv(args, "HOME", home.as_str());
    let user = env_value(&h.user, "nobody");
    push_setenv(args, "USER", user.as_str());
    let path = env_value(&h.path, "/usr/bin:/bin");
    push_setenv(args, "PATH", path.as_str());
    let term = env_value(&h.term, "xterm");
    push_setenv(args, "TERM", term.as_str());
    let lang = env_value(&h.lang, "C.UTF-8");
    push_setenv(args, "LANG", lang.as_str());
    let shell = env_value(&h.shell, "/bin/sh");
    push_setenv(args, "SHELL", shell.as_str());
    let ghost fixed = string_views(args@);
    let mut i: usize = 0;
    while i < vars.len()
        invariant
            i <= vars.len(),
            string_views(args@) == fixed + passthrough_args(vars@.subrange(0, i as int)),
        decreases vars.len() - i,
    {
        let (k, v) = &vars[i];
        push_setenv(args, k.as_str(), v.as_str());
        assert(vars@.subrange(0, i + 1).drop_last() =~= vars@.subrange(0, i as int));
        i = i + 1;
    }
    assert(vars@.subrange(0, vars.len() as int) =~= vars@);
    assert(string_views(args@) =~= string_views(old(args)@) + env_args(*h, vars@));
}

fn etc_paths_exec() -> (r: Vec<String>)
    ensures
        string_views(r@) == etc_paths(),
{
    let mut r: Vec<String> = Vec::new();
    push_text(&mut r, "/etc/resolv.conf");
    push_text(&mut r, "/etc/ssl");
    push_text(&mut r, "/etc/ld.so.cache");
    push_text(&mut r, "/etc/ld.so.conf");
    push_text(&mut r, "/etc/ld.so.conf.d");
    push_text(&mut r, "/etc/hosts");
    push_text(&mut r, "/etc/nsswitch.conf");
    push_text(&mut r, "/etc/localtime");
    push_text(&mut r, "/etc/passwd");
    push_text(&mut r, "/etc/group");
    push_text(&mut r, "/etc/alternatives");
    push_text(&mut r, "/etc/profile.d");
    push_text(&mut r, "/etc/profiles");
    assert(string_views(r@) =~= etc_paths());
    r
}

fn share_paths_exec() -> (r: Vec<String>)
    ensures
        string_views(r@) == share_paths(),
{
    let mut r: Vec<String> = Vec::new();
    push_text(&mut r, "/usr/share/ca-certificates");
    push_text(&mut r, "/usr/share/terminfo");
    push_text(&mut r, "/usr/share/zoneinfo");
    assert(string_views(r@) =~= share_paths());
    r
}

fn push_bind_each(args: &mut Vec<String>, h: &HostEnv, flag: &str, ps: &Vec<String>)
    ensures
        string_views(final(args)@) == string_views(old(args)@) + bind_each_existing(
            *h,
            flag@,
            string_views(ps@),
        ),
{
    let ghost v = string_views(ps@);
    let mut i: usize = 0;
    while i < ps.len()
        invariant
            i <= ps.len(),
            v == string_views(ps@),
            string_views(args@) == string_views(old(args)@) + bind_each_existing(
                *h,
                flag@,
                v.subrange(0, i as int),
            ),
        decreases ps.len() - i,
    {
        let p = ps[i].as_str();
        assert(v.subrange(0, i + 1).drop_last() =~= v.subrange(0, i as int));
        assert(v.subrange(0, i + 1).last() == p@);
        push_bind_if(args, h, flag, p);
        i = i + 1;
    }
    assert(v.subrange(0, ps.len() as int) =~= v);
}

fn push_system(args: &mut Vec<String>, h: &HostEnv)
    ensures
        string_views(final(args)@) == string_views(old(args)@) + system_args(*h),
{
    let ghost g0 = string_views(args@);
    push_text(args, "--dev");
    push_text(args, "/dev");
    push_text(args, "--proc");
    push_text(args, "/proc");
    push_text(args, "--tmpfs");
    push_text(args, "/tmp");
    push_text(args, "--ro-bind");
    push_text(args, "/usr");
    push_text(args, "/usr");
    assert(string_views(args@) =~= g0 + base_system_args());
    push_bind_if(args, h, "--ro-bind", "/nix");
    push_bind_if(args, h, "--ro-bind", "/run/current-system");
    let ghost g1 = string_views(args@);
    push_text(args, "--symlink");
    push_text(args, "usr/lib");
    push_text(args, "/lib");
    push_text(args, "--symlink");
    push_text(args, "usr/bin");
    push_text(args, "/bin");
    push_text(args, "--symlink");
    push_text(args, "usr/sbin");
    push_text(args, "/sbin");
    assert(string_views(args@) =~= g1 + symlink_args());
    let ghost g2 = string_views(args@);
    if host_has_exec(h, "/usr/lib64") {
        push_text(args, "--symlink");
        push_text(args, "usr/lib64");
        push_text(args, "/lib64");
    }
    assert(string_views(args@) =~= g2 + lib64_args(*h));
    let etc = etc_paths_exec();
    push_bind_each(args, h, "--ro-bind", &etc);
    let share = share_paths_exec();
    push_bind_each(args, h, "--ro-bind", &share);
    assert(string_views(args@) =~= string_views(old(args)@) + system_args(*h));
}

fn push_hidden(args: &mut Vec<String>, h: &HostEnv, children: &Vec<String>)
    ensures
        string_views(final(args)@) == string_views(old(args)@) + hide_existing(
            *h,
            string_views(children@),
        ),
{
    let ghost cs = string_views(children@);
    let mut i: usize = 0;
    while i < children.len()
        invariant
            i <= children.len(),
            cs == string_views(children@),
            string_views(args@) == string_views(old(args)@) + hide_existing(
                *h,
                cs.subrange(0, i as int),
            ),
        decreases children.len() - i,
    {
        let c = children[i].as_str();
        assert(cs.subrange(0, i + 1).drop_last() =~= cs.subrange(0, i as int));
        assert(cs.subrange(0, i + 1).last() == c@);
        if host_has_exec(h, c) {
            push_text(args, "--tmpfs");
            push_text(args, c);
        }
        i = i + 1;
    }
    assert(cs.subrange(0, children.len() as int) =~= cs);
}

fn push_home_dir(args: &mut Vec<String>, h: &HostEnv, blocked: &Vec<String>, flag: &str, src: &str)
    requires
        string_views(blocked@) == blocked_paths_spec(host_home(*h)),
    ensures
        string_views(final(args)@) == string_views(old(args)@) + home_dir_args(*h, flag@, src@),
{
    if !is_directly_blocked(src, blocked) {
        push_text(args, flag);
        push_text(args, src);
        push_text(args, src);
        let children = blocked_children(src, blocked);
        push_hidden(args, h, &children);
    }
}

fn push_home_file(args: &mut Vec<String>, h: &HostEnv, blocked: &Vec<String>, src: &str)
    requires
        string_views(blocked@) == blocked_paths_spec(host_home(*h)),
    ensures
        string_views(final(args)@) == string_views(old(args)@) + home_file_args(*h, src@),
{
    if !is_directly_blocked(src, blocked) {
        push_text(args, "--ro-bind-try");
        push_text(args, src);
        push_text(args, src);
    }
}

/// `home` followed by `suffix`.
fn concat(home: &str, suffix: &str) -> (r: String)
    ensures
        r@ == home@ + suffix@,
{
    let mut r = home.to_owned();
    r.append(suffix);
    r
}

fn push_home(args: &mut Vec<String>, h: &HostEnv)
    ensures
        string_views(final(args)@) == string_views(old(args)@) + home_args(*h),
{
    let home = home_dir(h);
    push_text(args, "--tmpfs");
    push_text(args, home.as_str());
    let blocked = blocked_paths(home.as_str());
    let config = concat(home.as_str(), "/.config");
    push_home_dir(args, h, &blocked, "--ro-bind-try", config.as_str());
    let local = concat(home.as_str(), "/.local");
    push_home_dir(args, h, &blocked, "--ro-bind-try", local.as_str());
    let cache = concat(home.as_str(), "/.cache");
    push_home_dir(args, h, &blocked, "--bind-try", cache.as_str());
    let bashrc = concat(home.as_str(), "/.bashrc");
    push_home_file(args, h, &blocked, bashrc.as_str());
    let profile = concat(home.as_str(), "/.profile");
    push_home_file(args, h, &blocked, profile.as_str());
    let gitconfig = concat(home.as_str(), "/.gitconfig");
    push_home_file(args, h, &blocked, gitconfig.as_str());
    assert(string_views(args@) =~= string_views(old(args)@) + home_args(*h));
}

fn push_binds(args: &mut Vec<String>, flag: &str, ps: &Vec<String>)
    ensures
        string_views(final(args)@) == string_views(old(args)@) + binds_args(
            flag@,
            string_views(ps@),
        ),
{
    let ghost v = string_views(ps@);
    let mut i: usize = 0;
    while i < ps.len()
        invariant
            i <= ps.len(),
            v == string_views(ps@),
            string_views(args@) == string_views(old(args)@) + binds_args(
                flag@,
                v.subrange(0, i as int),
            ),
        decreases ps.len() - i,
    {
        let p = ps[i].as_str();
        assert(v.subrange(0, i + 1).drop_last() =~= v.subrange(0, i as int));
        assert(v.subrange(0, i + 1).last() == p@);
        push_text(args, flag);
        push_text(args, p);
        push_text(args, p);
        i = i + 1;
    }
    assert(v.subrange(0, ps.len() as int) =~= v);
}

impl SandboxConfig {
    /// The bubblewrap arguments that run the command in the sandbox, on a
    /// host described by `host`.
    pub fn build_args(&self, host: &HostEnv) -> (r: Vec<String>)
        ensures
            string_views(r@) == sandbox_args(*self, *host),
    {
        let mut args: Vec<String> = Vec::new();
        push_namespace(&mut args, self.no_net);
        push_env(&mut args, host, &self.env_passthrough);
        push_system(&mut args, host);
        push_home(&mut args, host);
        push_binds(&mut args, "--ro-bind", &self.ro_binds);
        push_binds(&mut args, "--bind", &self.rw_binds);
        push_text(&mut args, "--overlay-src");
        push_text(&mut args, self.repo_root.as_str());
        push_text(&mut args, "--overlay");
        push_text(&mut args, self.upperdir.as_str());
        push_text(&mut args, self.workdir.as_str());
        push_text(&mut args, self.repo_root.as_str());
        push_text(&mut args, "--chdir");
        push_text(&mut args, self.repo_root.as_str());
        push_text(&mut args, "--");
        let ghost before_cmd = string_views(args@);
        let mut i: usize = 0;
        while i < self.command.len()
            invariant
                i <= self.command.len(),
                string_views(args@) == before_cmd + string_views(self.command@).subrange(0, i as int),
            decreases self.command.len() - i,
        {
            push_text(&mut args, self.command[i].as_str());
            assert(string_views(self.command@).subrange(0, i + 1) =~= string_views(
                self.command@,
            ).subrange(0, i as int).push(self.command@[i as int]@));
            i = i + 1;
        }
        assert(string_views(self.command@).subrange(0, self.command.len() as int) =~= string_views(
            self.command@,
        ));
        assert(string_views(args@) =~= sandbox_args(*self, *host));
        args
    }
}

} // verus!
