//! Laws of the sandbox argument list: what every list `build_args` produces
//! has, whatever the configuration and the host.
use vstd::prelude::*;
use crate::paths::{
    abs_path, components, is_normal_piece, join_spec, lemma_abs_components, lemma_last_component,
    lemma_last_piece, lemma_pieces_concat, lemma_pieces_no_slash, lemma_pieces_nonempty, pieces,
    root_component, same_path, seq_prefix, simple_name,
};
use crate::sandbox::{
    base_system_args, bind_each_existing, bind_if, binds_args, blocked_children_spec, blocked_names,
    blocked_paths_spec, directly_blocked, env_args, env_or, etc_paths, hide_existing, home_args,
    home_dir_args, home_file_args, host_home, lib64_args, namespace_args, passthrough_args,
    sandbox_args, setenv, share_paths, strictly_below, symlink_args, system_args, tail_args,
    HostEnv, SandboxConfig,
};
use crate::paths::string_views;

verus! {

/// The last component of each blocked path.
pub open spec fn blocked_last_names() -> Seq<Seq<char>> {
    seq![
        seq!['.', 's', 's', 'h'],
        seq!['.', 'g', 'n', 'u', 'p', 'g'],
        seq!['.', 'a', 'w', 's'],
        seq!['.', 'a', 'z', 'u', 'r', 'e'],
        seq!['g', 'c', 'l', 'o', 'u', 'd'],
    ]
}

proof fn lemma_join_last_piece(home: Seq<char>, name: Seq<char>)
    requires
        name.len() > 0,
        name[0] != '/',
    ensures
        pieces(join_spec(home, name)).last() == if name.contains('/') {
            pieces(name).last()
        } else {
            name
        },
{
    let empty = Seq::<char>::empty();
    if home.len() == 0 {
        assert(join_spec(home, name) == home + name);
        lemma_last_piece(home, name);
        assert(pieces(home).last() =~= empty);
        assert(empty + name =~= name);
    } else if home.last() == '/' {
        lemma_last_piece(home, name);
        lemma_pieces_nonempty(home.drop_last());
        assert(home.drop_last().push('/') =~= home);
        assert(pieces(home).last() =~= empty);
        assert(empty + name =~= name);
    } else {
        let a = home + seq!['/'];
        assert(join_spec(home, name) =~= a + name);
        lemma_last_piece(a, name);
        assert(a.drop_last() =~= home);
        assert(pieces(a).last() =~= empty);
        assert(empty + name =~= name);
    }
}

/// Each blocked path ends in one of the blocked names.
pub proof fn lemma_blocked_last(home: Seq<char>, i: int)
    requires
        0 <= i < 5,
    ensures
        components(blocked_paths_spec(home)[i]).len() > 0,
        blocked_last_names().contains(components(blocked_paths_spec(home)[i]).last()),
{
    reveal_strlit(".ssh");
    reveal_strlit(".gnupg");
    reveal_strlit(".aws");
    reveal_strlit(".azure");
    reveal_strlit(".config/gcloud");
    let names = blocked_last_names();
    let name = blocked_names()[i];
    let b = blocked_paths_spec(home)[i];
    assert(b == join_spec(home, name));
    if i < 4 {
        assert(name == names[i]);
        assert(!name.contains('/'));
        lemma_join_last_piece(home, name);
    } else {
        let config = seq!['.', 'c', 'o', 'n', 'f', 'i', 'g'];
        let gcloud = names[4];
        assert(name =~= config + seq!['/'] + gcloud);
        assert(name.contains('/')) by {
            assert(name[7] == '/');
        };
        lemma_join_last_piece(home, name);
        lemma_pieces_concat(config, gcloud);
        assert(!gcloud.contains('/'));
        lemma_pieces_no_slash(gcloud);
        lemma_pieces_nonempty(config);
    }
    assert(is_normal_piece(pieces(b).last())) by {
        assert(pieces(b).last() == names[i]);
        assert(names[i].len() > 1);
    };
    lemma_last_component(b);
    assert(names[i] == components(b).last());
}

/// An absolute path made of names that are not blocked names is not
/// blocked, whatever the home directory.
pub proof fn lemma_abs_not_blocked(parts: Seq<Seq<char>>, home: Seq<char>)
    requires
        parts.len() > 0,
        forall|i: int| 0 <= i < parts.len() ==> simple_name(#[trigger] parts[i]),
        forall|i: int| 0 <= i < parts.len() ==> !blocked_last_names().contains(#[trigger] parts[i]),
    ensures
        !directly_blocked(abs_path(parts), blocked_paths_spec(home)),
{
    let l = abs_path(parts);
    let bs = blocked_paths_spec(home);
    lemma_abs_components(parts);
    if directly_blocked(l, bs) {
        let i = choose|i: int|
            0 <= i < bs.len() && (same_path(l, #[trigger] bs[i]) || crate::paths::path_starts_with(
                l,
                bs[i],
            ));
        lemma_blocked_last(home, i);
        let cb = components(bs[i]);
        let cl = components(l);
        assert(seq_prefix(cb, cl)) by {
            if same_path(l, bs[i]) {
                assert(cl.subrange(0, cb.len() as int) =~= cb);
            }
        };
        let k = cb.len() - 1;
        assert(cl[k] == cb[k]) by {
            assert(cl.subrange(0, cb.len() as int)[k] == cl[k]);
        };
        if k == 0 {
            assert(cl[0] == root_component());
            let n = cb.last();
            let j = choose|j: int| 0 <= j < blocked_last_names().len() && blocked_last_names()[j] == n;
            assert(n.len() > 1);
        } else {
            assert(cl[k] == parts[k - 1]);
            assert(blocked_last_names().contains(parts[k - 1]));
        }
    }
}

/// The absolute path with the given names is not blocked, whatever the
/// home directory, when none of the names is a blocked name.
proof fn lemma_names_not_blocked(lit: Seq<char>, parts: Seq<Seq<char>>, home: Seq<char>)
    requires
        lit =~= abs_path(parts),
        parts.len() > 0,
        forall|i: int| 0 <= i < parts.len() ==> simple_name(#[trigger] parts[i]),
        forall|i: int| 0 <= i < parts.len() ==> !blocked_last_names().contains(#[trigger] parts[i]),
    ensures
        !directly_blocked(lit, blocked_paths_spec(home)),
{
    lemma_abs_not_blocked(parts, home);
}

/// The system paths that the sandbox mounts are never blocked paths, nor
/// below one, whatever the home directory.
pub proof fn lemma_system_paths_not_blocked(home: Seq<char>)
    ensures
        !directly_blocked("/usr"@, blocked_paths_spec(home)),
        !directly_blocked("/nix"@, blocked_paths_spec(home)),
        !directly_blocked("/run/current-system"@, blocked_paths_spec(home)),
        forall|i: int|
            0 <= i < etc_paths().len() ==> !directly_blocked(
                #[trigger] etc_paths()[i],
                blocked_paths_spec(home),
            ),
        forall|i: int|
            0 <= i < share_paths().len() ==> !directly_blocked(
                #[trigger] share_paths()[i],
                blocked_paths_spec(home),
            ),
{
    reveal_strlit("/usr");
    reveal_strlit("/nix");
    reveal_strlit("/run/current-system");
    reveal_strlit("/etc/resolv.conf");
    reveal_strlit("/etc/ssl");
    reveal_strlit("/etc/ld.so.cache");
    reveal_strlit("/etc/ld.so.conf");
    reveal_strlit("/etc/ld.so.conf.d");
    reveal_strlit("/etc/hosts");
    reveal_strlit("/etc/nsswitch.conf");
    reveal_strlit("/etc/localtime");
    reveal_strlit("/etc/passwd");
    reveal_strlit("/etc/group");
    reveal_strlit("/etc/alternatives");
    reveal_strlit("/etc/profile.d");
    reveal_strlit("/etc/profiles");
    reveal_strlit("/usr/share/ca-certificates");
    reveal_strlit("/usr/share/terminfo");
    reveal_strlit("/usr/share/zoneinfo");
    reveal_with_fuel(abs_path, 4);
    lemma_names_not_blocked("/usr"@, seq![seq!['u', 's', 'r']], home);
    lemma_names_not_blocked("/nix"@, seq![seq!['n', 'i', 'x']], home);
    lemma_names_not_blocked("/run/current-system"@, seq![seq!['r', 'u', 'n'], seq!['c', 'u', 'r', 'r', 'e', 'n', 't', '-', 's', 'y', 's', 't', 'e', 'm']], home);
    lemma_names_not_blocked("/etc/resolv.conf"@, seq![seq!['e', 't', 'c'], seq!['r', 'e', 's', 'o', 'l', 'v', '.', 'c', 'o', 'n', 'f']], home);
    lemma_names_not_blocked("/etc/ssl"@, seq![seq!['e', 't', 'c'], seq!['s', 's', 'l']], home);
    lemma_names_not_blocked("/etc/ld.so.cache"@, seq![seq!['e', 't', 'c'], seq!['l', 'd', '.', 's', 'o', '.', 'c', 'a', 'c', 'h', 'e']], home);
    lemma_names_not_blocked("/etc/ld.so.conf"@, seq![seq!['e', 't', 'c'], seq!['l', 'd', '.', 's', 'o', '.', 'c', 'o', 'n', 'f']], home);
    lemma_names_not_blocked("/etc/ld.so.conf.d"@, seq![seq!['e', 't', 'c'], seq!['l', 'd', '.', 's', 'o', '.', 'c', 'o', 'n', 'f', '.', 'd']], home);
    lemma_names_not_blocked("/etc/hosts"@, seq![seq!['e', 't', 'c'], seq!['h', 'o', 's', 't', 's']], home);
    lemma_names_not_blocked("/etc/nsswitch.conf"@, seq![seq!['e', 't', 'c'], seq!['n', 's', 's', 'w', 'i', 't', 'c', 'h', '.', 'c', 'o', 'n', 'f']], home);
    lemma_names_not_blocked("/etc/localtime"@, seq![seq!['e', 't', 'c'], seq!['l', 'o', 'c', 'a', 'l', 't', 'i', 'm', 'e']], home);
    lemma_names_not_blocked("/etc/passwd"@, seq![seq!['e', 't', 'c'], seq!['p', 'a', 's', 's', 'w', 'd']], home);
    lemma_names_not_blocked("/etc/group"@, seq![seq!['e', 't', 'c'], seq!['g', 'r', 'o', 'u', 'p']], home);
    lemma_names_not_blocked("/etc/alternatives"@, seq![seq!['e', 't', 'c'], seq!['a', 'l', 't', 'e', 'r', 'n', 'a', 't', 'i', 'v', 'e', 's']], home);
    lemma_names_not_blocked("/etc/profile.d"@, seq![seq!['e', 't', 'c'], seq!['p', 'r', 'o', 'f', 'i', 'l', 'e', '.', 'd']], home);
    lemma_names_not_blocked("/etc/profiles"@, seq![seq!['e', 't', 'c'], seq!['p', 'r', 'o', 'f', 'i', 'l', 'e', 's']], home);
    lemma_names_not_blocked("/usr/share/ca-certificates"@, seq![seq!['u', 's', 'r'], seq!['s', 'h', 'a', 'r', 'e'], seq!['c', 'a', '-', 'c', 'e', 'r', 't', 'i', 'f', 'i', 'c', 'a', 't', 'e', 's']], home);
    lemma_names_not_blocked("/usr/share/terminfo"@, seq![seq!['u', 's', 'r'], seq!['s', 'h', 'a', 'r', 'e'], seq!['t', 'e', 'r', 'm', 'i', 'n', 'f', 'o']], home);
    lemma_names_not_blocked("/usr/share/zoneinfo"@, seq![seq!['u', 's', 'r'], seq!['s', 'h', 'a', 'r', 'e'], seq!['z', 'o', 'n', 'e', 'i', 'n', 'f', 'o']], home);
    assert forall|i: int| 0 <= i < etc_paths().len() implies !directly_blocked(
        #[trigger] etc_paths()[i],
        blocked_paths_spec(home),
    ) by {
        assert(etc_paths()[0] == "/etc/resolv.conf"@);
    };
}

// ---------------------------------------------------------------------------
// Flags and what follows them.
// ---------------------------------------------------------------------------

/// In `s`, every element that is a flag is followed by an element that is
/// fine to follow it (so no flag comes last).
pub open spec fn tidy(
    s: Seq<Seq<char>>,
    flag: spec_fn(Seq<char>) -> bool,
    ok: spec_fn(Seq<char>) -> bool,
) -> bool {
    forall|i: int| 0 <= i < s.len() && flag(#[trigger] s[i]) ==> i + 1 < s.len() && ok(s[i + 1])
}

pub proof fn lemma_tidy_concat(
    a: Seq<Seq<char>>,
    b: Seq<Seq<char>>,
    flag: spec_fn(Seq<char>) -> bool,
    ok: spec_fn(Seq<char>) -> bool,
)
    requires
        tidy(a, flag, ok),
        tidy(b, flag, ok),
    ensures
        tidy(a + b, flag, ok),
{
    let s = a + b;
    assert forall|i: int| 0 <= i < s.len() && flag(#[trigger] s[i]) implies i + 1 < s.len() && ok(
        s[i + 1],
    ) by {
        if i < a.len() {
            assert(s[i] == a[i]);
            assert(s[i + 1] == a[i + 1]);
        } else {
            assert(s[i] == b[i - a.len()]);
            assert(s[i + 1] == b[i + 1 - a.len()]);
        }
    };
}

pub proof fn lemma_tidy_none(s: Seq<Seq<char>>, flag: spec_fn(Seq<char>) -> bool, ok: spec_fn(Seq<char>) -> bool)
    requires
        forall|i: int| 0 <= i < s.len() ==> !flag(#[trigger] s[i]),
    ensures
        tidy(s, flag, ok),
{
}

pub proof fn lemma_tidy_triple(
    f: Seq<char>,
    x: Seq<char>,
    flag: spec_fn(Seq<char>) -> bool,
    ok: spec_fn(Seq<char>) -> bool,
)
    requires
        flag(f) ==> ok(x),
        !flag(x),
    ensures
        tidy(seq![f, x, x], flag, ok),
{
}

/// Starts with two dashes, as every option of bubblewrap does.
pub open spec fn dashed(x: Seq<char>) -> bool {
    x.len() >= 2 && x[0] == '-' && x[1] == '-'
}

/// Ends as the flags that the laws look for do: in `nd`, `y`, `v` or `t`.
pub open spec fn flag_like_end(x: Seq<char>) -> bool {
    x.len() >= 2 && ((x.last() == 'd' && x[x.len() - 2] == 'n') || x.last() == 'y' || x.last()
        == 'v' || x.last() == 't')
}

/// Every flag is dashed and ends as a flag.
pub open spec fn flag_shaped(flag: spec_fn(Seq<char>) -> bool) -> bool {
    forall|x: Seq<char>| #[trigger] flag(x) ==> dashed(x) && (flag_like_end(x) || x.len() == 2)
}

/// A value that the host supplies: one of the environment variables copied.
pub open spec fn host_value(h: HostEnv, x: Seq<char>) -> bool {
    ||| h.home is Some && h.home->0@ == x
    ||| h.user is Some && h.user->0@ == x
    ||| h.path is Some && h.path->0@ == x
    ||| h.term is Some && h.term->0@ == x
    ||| h.lang is Some && h.lang->0@ == x
    ||| h.shell is Some && h.shell->0@ == x
}

/// A string that the configuration supplies.
pub open spec fn config_supplied(c: SandboxConfig, x: Seq<char>) -> bool {
    ||| x == c.repo_root@
    ||| x == c.upperdir@
    ||| x == c.workdir@
    ||| string_views(c.ro_binds@).contains(x)
    ||| string_views(c.rw_binds@).contains(x)
    ||| string_views(c.command@).contains(x)
    ||| exists|j: int|
        0 <= j < c.env_passthrough@.len() && (#[trigger] c.env_passthrough@[j].0@ == x
            || c.env_passthrough@[j].1@ == x)
}

/// A string that the configuration or the host supplies.
pub open spec fn supplied(c: SandboxConfig, h: HostEnv, x: Seq<char>) -> bool {
    host_value(h, x) || config_supplied(c, x)
}

/// No string of the configuration is a flag.
pub open spec fn config_not_flag(c: SandboxConfig, flag: spec_fn(Seq<char>) -> bool) -> bool {
    forall|x: Seq<char>| #[trigger] config_supplied(c, x) ==> !flag(x)
}

proof fn lemma_config_not_flag(c: SandboxConfig, h: HostEnv, flag: spec_fn(Seq<char>) -> bool)
    requires
        supplied_not_flag(c, h, flag),
    ensures
        config_not_flag(c, flag),
{
    assert forall|x: Seq<char>| #[trigger] config_supplied(c, x) implies !flag(x) by {
        assert(supplied(c, h, x));
    }
}

/// No supplied string is a flag.
pub open spec fn supplied_not_flag(
    c: SandboxConfig,
    h: HostEnv,
    flag: spec_fn(Seq<char>) -> bool,
) -> bool {
    forall|x: Seq<char>| #[trigger] supplied(c, h, x) ==> !flag(x)
}

/// The shapes of the words that the argument list is made of.
pub proof fn lemma_literal_shapes()
    ensures
        "slopwrap"@[0] == 's',
        "HOME"@[0] == 'H',
        "USER"@[0] == 'U',
        "PATH"@[0] == 'P',
        "TERM"@[0] == 'T',
        "LANG"@[0] == 'L',
        "SHELL"@[0] == 'S',
        "/root"@[0] == '/',
        "nobody"@[0] == 'n',
        "/usr/bin:/bin"@[0] == '/',
        "xterm"@[0] == 'x',
        "C.UTF-8"@[0] == 'C',
        "/bin/sh"@[0] == '/',
        "/dev"@[0] == '/',
        "/proc"@[0] == '/',
        "/tmp"@[0] == '/',
        "/usr"@[0] == '/',
        "/nix"@[0] == '/',
        "/run/current-system"@[0] == '/',
        "usr/lib"@[0] == 'u',
        "/lib"@[0] == '/',
        "usr/bin"@[0] == 'u',
        "/bin"@[0] == '/',
        "usr/sbin"@[0] == 'u',
        "/sbin"@[0] == '/',
        "usr/lib64"@[0] == 'u',
        "/lib64"@[0] == '/',
        "--unshare-all"@.len() == 13 && "--unshare-all"@[2] == 'u',
        "--share-net"@.len() == 11 && "--share-net"@[2] == 's',
        "--die-with-parent"@.len() == 17 && "--die-with-parent"@[2] == 'd',
        "--hostname"@.len() == 10 && "--hostname"@[2] == 'h',
        "--clearenv"@.len() == 10 && "--clearenv"@[2] == 'c',
        "--setenv"@.len() == 8 && "--setenv"@[2] == 's',
        "--dev"@.len() == 5 && "--dev"@[2] == 'd',
        "--proc"@.len() == 6 && "--proc"@[2] == 'p',
        "--tmpfs"@.len() == 7 && "--tmpfs"@[2] == 't',
        "--ro-bind"@.len() == 9 && "--ro-bind"@[2] == 'r',
        "--symlink"@.len() == 9 && "--symlink"@[2] == 's',
        "--ro-bind-try"@.len() == 13 && "--ro-bind-try"@[2] == 'r',
        "--bind-try"@.len() == 10 && "--bind-try"@[2] == 'b',
        "--bind"@.len() == 6 && "--bind"@[2] == 'b',
        "--overlay-src"@.len() == 13 && "--overlay-src"@[2] == 'o',
        "--overlay"@.len() == 9 && "--overlay"@[2] == 'o',
        "--chdir"@.len() == 7 && "--chdir"@[2] == 'c',
        "--"@.len() == 2,
        "/etc/resolv.conf"@[0] == '/',
        "/etc/ssl"@[0] == '/',
        "/etc/ld.so.cache"@[0] == '/',
        "/etc/ld.so.conf"@[0] == '/',
        "/etc/ld.so.conf.d"@[0] == '/',
        "/etc/hosts"@[0] == '/',
        "/etc/nsswitch.conf"@[0] == '/',
        "/etc/localtime"@[0] == '/',
        "/etc/passwd"@[0] == '/',
        "/etc/group"@[0] == '/',
        "/etc/alternatives"@[0] == '/',
        "/etc/profile.d"@[0] == '/',
        "/etc/profiles"@[0] == '/',
        "/usr/share/ca-certificates"@[0] == '/',
        "/usr/share/terminfo"@[0] == '/',
        "/usr/share/zoneinfo"@[0] == '/',
        "/.config"@.len() == 8 && "/.config"@[7] == 'g',
        "/.local"@.len() == 7 && "/.local"@[6] == 'l',
        "/.cache"@.len() == 7 && "/.cache"@[6] == 'e',
        "/.bashrc"@.len() == 8 && "/.bashrc"@[7] == 'c',
        "/.profile"@.len() == 9 && "/.profile"@[8] == 'e',
        "/.gitconfig"@.len() == 11 && "/.gitconfig"@[10] == 'g',
{
    reveal_strlit("/etc/resolv.conf");
    reveal_strlit("/etc/ssl");
    reveal_strlit("/etc/ld.so.cache");
    reveal_strlit("/etc/ld.so.conf");
    reveal_strlit("/etc/ld.so.conf.d");
    reveal_strlit("/etc/hosts");
    reveal_strlit("/etc/nsswitch.conf");
    reveal_strlit("/etc/localtime");
    reveal_strlit("/etc/passwd");
    reveal_strlit("/etc/group");
    reveal_strlit("/etc/alternatives");
    reveal_strlit("/etc/profile.d");
    reveal_strlit("/etc/profiles");
    reveal_strlit("/usr/share/ca-certificates");
    reveal_strlit("/usr/share/terminfo");
    reveal_strlit("/usr/share/zoneinfo");
    reveal_strlit("/.config");
    reveal_strlit("/.local");
    reveal_strlit("/.cache");
    reveal_strlit("/.bashrc");
    reveal_strlit("/.profile");
    reveal_strlit("/.gitconfig");

    reveal_strlit("slopwrap");
    reveal_strlit("HOME");
    reveal_strlit("USER");
    reveal_strlit("PATH");
    reveal_strlit("TERM");
    reveal_strlit("LANG");
    reveal_strlit("SHELL");
    reveal_strlit("/root");
    reveal_strlit("nobody");
    reveal_strlit("/usr/bin:/bin");
    reveal_strlit("xterm");
    reveal_strlit("C.UTF-8");
    reveal_strlit("/bin/sh");
    reveal_strlit("/dev");
    reveal_strlit("/proc");
    reveal_strlit("/tmp");
    reveal_strlit("/usr");
    reveal_strlit("/nix");
    reveal_strlit("/run/current-system");
    reveal_strlit("usr/lib");
    reveal_strlit("/lib");
    reveal_strlit("usr/bin");
    reveal_strlit("/bin");
    reveal_strlit("usr/sbin");
    reveal_strlit("/sbin");
    reveal_strlit("usr/lib64");
    reveal_strlit("/lib64");
    reveal_strlit("--unshare-all");
    reveal_strlit("--share-net");
    reveal_strlit("--die-with-parent");
    reveal_strlit("--hostname");
    reveal_strlit("--clearenv");
    reveal_strlit("--setenv");
    reveal_strlit("--dev");
    reveal_strlit("--proc");
    reveal_strlit("--tmpfs");
    reveal_strlit("--ro-bind");
    reveal_strlit("--symlink");
    reveal_strlit("--ro-bind-try");
    reveal_strlit("--bind-try");
    reveal_strlit("--bind");
    reveal_strlit("--overlay-src");
    reveal_strlit("--overlay");
    reveal_strlit("--chdir");
    reveal_strlit("--");
}

/// A joined path ends as the name joined to it.
pub proof fn lemma_join_ends(home: Seq<char>, name: Seq<char>)
    requires
        name.len() >= 2,
        name[0] != '/',
    ensures
        join_spec(home, name).len() >= name.len(),
        join_spec(home, name).last() == name.last(),
        join_spec(home, name)[join_spec(home, name).len() - 2] == name[name.len() - 2],
{
    let j = join_spec(home, name);
    let off = j.len() - name.len();
    assert(j.last() == name[name.len() - 1]);
    assert(j[j.len() - 2] == name[name.len() - 2]);
}

/// No blocked path ends as a flag.
pub proof fn lemma_blocked_not_flag_like(home: Seq<char>, i: int)
    requires
        0 <= i < 5,
    ensures
        !flag_like_end(blocked_paths_spec(home)[i]),
        blocked_paths_spec(home)[i].len() > 2,
{
    reveal_strlit(".ssh");
    reveal_strlit(".gnupg");
    reveal_strlit(".aws");
    reveal_strlit(".azure");
    reveal_strlit(".config/gcloud");
    let name = blocked_names()[i];
    assert(name[0] == '.');
    assert(name.len() >= 4);
    lemma_join_ends(home, name);
    assert(name[name.len() - 1] != 'y' && name[name.len() - 1] != 'v' && name[name.len() - 1]
        != 't');
    assert(name[name.len() - 1] == 'd' ==> name[name.len() - 2] == 'u');
}

proof fn lemma_tidy_namespace(no_net: bool, flag: spec_fn(Seq<char>) -> bool, ok: spec_fn(Seq<char>) -> bool)
    requires
        flag_shaped(flag),
        !flag("--unshare-all"@),
        !flag("--share-net"@),
        !flag("--die-with-parent"@),
        !flag("--hostname"@),
    ensures
        tidy(namespace_args(no_net), flag, ok),
{
    lemma_literal_shapes();
    let s = namespace_args(no_net);
    assert(flag("slopwrap"@) ==> dashed("slopwrap"@));
    assert forall|i: int| 0 <= i < s.len() implies !flag(#[trigger] s[i]) by {
    };
}

proof fn lemma_tidy_setenv(
    k: Seq<char>,
    v: Seq<char>,
    flag: spec_fn(Seq<char>) -> bool,
    ok: spec_fn(Seq<char>) -> bool,
)
    requires
        flag("--setenv"@) ==> ok(k),
        !flag(k),
        !flag(v),
    ensures
        tidy(setenv(k, v), flag, ok),
{
}

proof fn lemma_tidy_passthrough(
    vars: Seq<(String, String)>,
    flag: spec_fn(Seq<char>) -> bool,
    ok: spec_fn(Seq<char>) -> bool,
)
    requires
        forall|j: int|
            0 <= j < vars.len() ==> !flag((#[trigger] vars[j]).0@) && !flag(vars[j].1@) && (flag(
                "--setenv"@,
            ) ==> ok(vars[j].0@)),
    ensures
        tidy(passthrough_args(vars), flag, ok),
    decreases vars.len(),
{
    if vars.len() > 0 {
        let front = vars.drop_last();
        assert forall|j: int| 0 <= j < front.len() implies !flag((#[trigger] front[j]).0@) && !flag(
            front[j].1@,
        ) && (flag("--setenv"@) ==> ok(front[j].0@)) by {
            assert(front[j] == vars[j]);
        };
        lemma_tidy_passthrough(front, flag, ok);
        let last = vars[vars.len() - 1];
        lemma_tidy_setenv(last.0@, last.1@, flag, ok);
        lemma_tidy_concat(passthrough_args(front), setenv(last.0@, last.1@), flag, ok);
    }
}

/// The keys that the argument list sets: the safe subset and the variables
/// passed through.
pub open spec fn set_key(vars: Seq<(String, String)>, k: Seq<char>) -> bool {
    ||| k == "HOME"@
    ||| k == "USER"@
    ||| k == "PATH"@
    ||| k == "TERM"@
    ||| k == "LANG"@
    ||| k == "SHELL"@
    ||| exists|j: int| 0 <= j < vars.len() && #[trigger] vars[j].0@ == k
}

proof fn lemma_value_not_flag(
    c: SandboxConfig,
    h: HostEnv,
    v: Option<String>,
    default: Seq<char>,
    flag: spec_fn(Seq<char>) -> bool,
)
    requires
        supplied_not_flag(c, h, flag),
        v is Some ==> supplied(c, h, v->0@),
        !flag(default),
    ensures
        !flag(env_or(v, default)),
{
    if v is Some {
        assert(supplied(c, h, v->0@));
    }
}

proof fn lemma_tidy_env(c: SandboxConfig, h: HostEnv, flag: spec_fn(Seq<char>) -> bool, ok: spec_fn(Seq<char>) -> bool)
    requires
        flag_shaped(flag),
        supplied_not_flag(c, h, flag),
        !flag("--clearenv"@),
        flag("--setenv"@) ==> forall|k: Seq<char>| #[trigger] set_key(c.env_passthrough@, k) ==> ok(k),
    ensures
        tidy(env_args(h, c.env_passthrough@), flag, ok),
{
    lemma_literal_shapes();
    let vars = c.env_passthrough@;
    assert(!flag("HOME"@) && !flag("USER"@) && !flag("PATH"@) && !flag("TERM"@) && !flag(
        "LANG"@,
    ) && !flag("SHELL"@));
    assert(!flag("/root"@) && !flag("nobody"@) && !flag("/usr/bin:/bin"@) && !flag("xterm"@)
        && !flag("C.UTF-8"@) && !flag("/bin/sh"@));
    lemma_value_not_flag(c, h, h.home, "/root"@, flag);
    lemma_value_not_flag(c, h, h.user, "nobody"@, flag);
    lemma_value_not_flag(c, h, h.path, "/usr/bin:/bin"@, flag);
    lemma_value_not_flag(c, h, h.term, "xterm"@, flag);
    lemma_value_not_flag(c, h, h.lang, "C.UTF-8"@, flag);
    lemma_value_not_flag(c, h, h.shell, "/bin/sh"@, flag);
    assert(flag("--setenv"@) ==> ok("HOME"@) && ok("USER"@) && ok("PATH"@) && ok("TERM"@) && ok(
        "LANG"@,
    ) && ok("SHELL"@)) by {
        if flag("--setenv"@) {
            assert(set_key(vars, "HOME"@));
            assert(set_key(vars, "USER"@));
            assert(set_key(vars, "PATH"@));
            assert(set_key(vars, "TERM"@));
            assert(set_key(vars, "LANG"@));
            assert(set_key(vars, "SHELL"@));
        }
    };
    assert forall|j: int| 0 <= j < vars.len() implies !flag((#[trigger] vars[j]).0@) && !flag(
        vars[j].1@,
    ) && (flag("--setenv"@) ==> ok(vars[j].0@)) by {
        assert(supplied(c, h, vars[j].0@));
        assert(supplied(c, h, vars[j].1@));
        if flag("--setenv"@) {
            assert(set_key(vars, vars[j].0@));
        }
    };
    let home = host_home(h);
    let s0 = seq!["--clearenv"@];
    let s1 = setenv("HOME"@, home);
    let s2 = setenv("USER"@, env_or(h.user, "nobody"@));
    let s3 = setenv("PATH"@, env_or(h.path, "/usr/bin:/bin"@));
    let s4 = setenv("TERM"@, env_or(h.term, "xterm"@));
    let s5 = setenv("LANG"@, env_or(h.lang, "C.UTF-8"@));
    let s6 = setenv("SHELL"@, env_or(h.shell, "/bin/sh"@));
    lemma_tidy_none(s0, flag, ok);
    lemma_tidy_setenv("HOME"@, home, flag, ok);
    lemma_tidy_setenv("USER"@, env_or(h.user, "nobody"@), flag, ok);
    lemma_tidy_setenv("PATH"@, env_or(h.path, "/usr/bin:/bin"@), flag, ok);
    lemma_tidy_setenv("TERM"@, env_or(h.term, "xterm"@), flag, ok);
    lemma_tidy_setenv("LANG"@, env_or(h.lang, "C.UTF-8"@), flag, ok);
    lemma_tidy_setenv("SHELL"@, env_or(h.shell, "/bin/sh"@), flag, ok);
    lemma_tidy_passthrough(vars, flag, ok);
    lemma_tidy_concat(s0, s1, flag, ok);
    lemma_tidy_concat(s0 + s1, s2, flag, ok);
    lemma_tidy_concat(s0 + s1 + s2, s3, flag, ok);
    lemma_tidy_concat(s0 + s1 + s2 + s3, s4, flag, ok);
    lemma_tidy_concat(s0 + s1 + s2 + s3 + s4, s5, flag, ok);
    lemma_tidy_concat(s0 + s1 + s2 + s3 + s4 + s5, s6, flag, ok);
    lemma_tidy_concat(s0 + s1 + s2 + s3 + s4 + s5 + s6, passthrough_args(vars), flag, ok);
}

proof fn lemma_tidy_bind_if(
    h: HostEnv,
    f: Seq<char>,
    p: Seq<char>,
    flag: spec_fn(Seq<char>) -> bool,
    ok: spec_fn(Seq<char>) -> bool,
)
    requires
        flag(f) ==> ok(p),
        !flag(p),
    ensures
        tidy(bind_if(h, f, p), flag, ok),
{
}

proof fn lemma_tidy_bind_each(
    h: HostEnv,
    f: Seq<char>,
    ps: Seq<Seq<char>>,
    flag: spec_fn(Seq<char>) -> bool,
    ok: spec_fn(Seq<char>) -> bool,
)
    requires
        forall|i: int| 0 <= i < ps.len() ==> !flag(#[trigger] ps[i]) && (flag(f) ==> ok(ps[i])),
    ensures
        tidy(bind_each_existing(h, f, ps), flag, ok),
    decreases ps.len(),
{
    if ps.len() > 0 {
        let front = ps.drop_last();
        assert forall|i: int| 0 <= i < front.len() implies !flag(#[trigger] front[i]) && (flag(f)
            ==> ok(front[i])) by {
            assert(front[i] == ps[i]);
        };
        lemma_tidy_bind_each(h, f, front, flag, ok);
        assert(!flag(ps[ps.len() - 1]));
        lemma_tidy_bind_if(h, f, ps.last(), flag, ok);
        lemma_tidy_concat(bind_each_existing(h, f, front), bind_if(h, f, ps.last()), flag, ok);
    }
}

/// A path the system part mounts read-only.
pub open spec fn system_mount(p: Seq<char>) -> bool {
    ||| p == "/usr"@
    ||| p == "/nix"@
    ||| p == "/run/current-system"@
    ||| etc_paths().contains(p)
    ||| share_paths().contains(p)
}

proof fn lemma_tidy_system(h: HostEnv, flag: spec_fn(Seq<char>) -> bool, ok: spec_fn(Seq<char>) -> bool)
    requires
        flag_shaped(flag),
        !flag("--dev"@),
        !flag("--proc"@),
        !flag("--tmpfs"@),
        !flag("--symlink"@),
        flag("--ro-bind"@) ==> forall|p: Seq<char>| #[trigger] system_mount(p) ==> ok(p),
    ensures
        tidy(system_args(h), flag, ok),
{
    lemma_literal_shapes();
    let f = "--ro-bind"@;
    assert(!flag("/dev"@) && !flag("/proc"@) && !flag("/tmp"@) && !flag("/usr"@) && !flag(
        "/nix"@,
    ) && !flag("/run/current-system"@));
    assert(!flag("usr/lib"@) && !flag("/lib"@) && !flag("usr/bin"@) && !flag("/bin"@) && !flag(
        "usr/sbin"@,
    ) && !flag("/sbin"@) && !flag("usr/lib64"@) && !flag("/lib64"@));
    let b = base_system_args();
    assert(b =~= seq!["--dev"@, "/dev"@, "--proc"@, "/proc"@, "--tmpfs"@, "/tmp"@] + seq![
        f,
        "/usr"@,
        "/usr"@,
    ]);
    lemma_tidy_none(seq!["--dev"@, "/dev"@, "--proc"@, "/proc"@, "--tmpfs"@, "/tmp"@], flag, ok);
    assert(flag(f) ==> ok("/usr"@)) by {
        if flag(f) {
            assert(system_mount("/usr"@));
        }
    };
    lemma_tidy_triple(f, "/usr"@, flag, ok);
    lemma_tidy_concat(
        seq!["--dev"@, "/dev"@, "--proc"@, "/proc"@, "--tmpfs"@, "/tmp"@],
        seq![f, "/usr"@, "/usr"@],
        flag,
        ok,
    );
    assert(flag(f) ==> ok("/nix"@) && ok("/run/current-system"@)) by {
        if flag(f) {
            assert(system_mount("/nix"@));
            assert(system_mount("/run/current-system"@));
        }
    };
    lemma_tidy_bind_if(h, f, "/nix"@, flag, ok);
    lemma_tidy_bind_if(h, f, "/run/current-system"@, flag, ok);
    lemma_tidy_none(symlink_args(), flag, ok);
    lemma_tidy_none(lib64_args(h), flag, ok);
    let etc = etc_paths();
    let share = share_paths();
    assert forall|i: int| 0 <= i < etc.len() implies !flag(#[trigger] etc[i]) && (flag(f) ==> ok(
        etc[i],
    )) by {
        assert(etc[i][0] == '/');
        if flag(f) {
            assert(etc.contains(etc[i]));
            assert(system_mount(etc[i]));
        }
    };
    assert forall|i: int| 0 <= i < share.len() implies !flag(#[trigger] share[i]) && (flag(f)
        ==> ok(share[i])) by {
        assert(share[i][0] == '/');
        if flag(f) {
            assert(share.contains(share[i]));
            assert(system_mount(share[i]));
        }
    };
    lemma_tidy_bind_each(h, f, etc, flag, ok);
    lemma_tidy_bind_each(h, f, share, flag, ok);
    let s1 = base_system_args();
    let s2 = bind_if(h, f, "/nix"@);
    let s3 = bind_if(h, f, "/run/current-system"@);
    let s4 = symlink_args();
    let s5 = lib64_args(h);
    let s6 = bind_each_existing(h, f, etc);
    let s7 = bind_each_existing(h, f, share);
    lemma_tidy_concat(s1, s2, flag, ok);
    lemma_tidy_concat(s1 + s2, s3, flag, ok);
    lemma_tidy_concat(s1 + s2 + s3, s4, flag, ok);
    lemma_tidy_concat(s1 + s2 + s3 + s4, s5, flag, ok);
    lemma_tidy_concat(s1 + s2 + s3 + s4 + s5, s6, flag, ok);
    lemma_tidy_concat(s1 + s2 + s3 + s4 + s5 + s6, s7, flag, ok);
}

proof fn lemma_tidy_hidden(
    h: HostEnv,
    cs: Seq<Seq<char>>,
    flag: spec_fn(Seq<char>) -> bool,
    ok: spec_fn(Seq<char>) -> bool,
)
    requires
        !flag("--tmpfs"@),
        forall|i: int| 0 <= i < cs.len() ==> !flag(#[trigger] cs[i]),
    ensures
        tidy(hide_existing(h, cs), flag, ok),
    decreases cs.len(),
{
    if cs.len() > 0 {
        let front = cs.drop_last();
        assert forall|i: int| 0 <= i < front.len() implies !flag(#[trigger] front[i]) by {
            assert(front[i] == cs[i]);
        };
        lemma_tidy_hidden(h, front, flag, ok);
        assert(!flag(cs[cs.len() - 1]));
        let last = if crate::sandbox::host_has(h, cs.last()) {
            seq!["--tmpfs"@, cs.last()]
        } else {
            Seq::empty()
        };
        lemma_tidy_none(last, flag, ok);
        lemma_tidy_concat(hide_existing(h, front), last, flag, ok);
    }
}

/// What follows a home bind flag is fine whenever it is not blocked.
pub open spec fn home_binds_ok(
    h: HostEnv,
    flag: spec_fn(Seq<char>) -> bool,
    ok: spec_fn(Seq<char>) -> bool,
) -> bool {
    (flag("--ro-bind-try"@) || flag("--bind-try"@)) ==> forall|x: Seq<char>|
        !#[trigger] directly_blocked(x, blocked_paths_spec(host_home(h))) ==> ok(x)
}

proof fn lemma_home_src_not_flag(home: Seq<char>, suffix: Seq<char>, flag: spec_fn(Seq<char>) -> bool)
    requires
        flag_shaped(flag),
        suffix.len() >= 3,
        suffix.last() != 'y' && suffix.last() != 'v' && suffix.last() != 't' && suffix.last() != 'd',
    ensures
        !flag(home + suffix),
{
    let x = home + suffix;
    assert(x[x.len() - 1] == suffix[suffix.len() - 1]);
}

proof fn lemma_tidy_home_dir(
    h: HostEnv,
    f: Seq<char>,
    src: Seq<char>,
    flag: spec_fn(Seq<char>) -> bool,
    ok: spec_fn(Seq<char>) -> bool,
)
    requires
        flag_shaped(flag),
        !flag("--tmpfs"@),
        !flag(src),
        f == "--ro-bind-try"@ || f == "--bind-try"@,
        home_binds_ok(h, flag, ok),
    ensures
        tidy(home_dir_args(h, f, src), flag, ok),
{
    let bs = blocked_paths_spec(host_home(h));
    if !directly_blocked(src, bs) {
        lemma_tidy_triple(f, src, flag, ok);
        let cs = blocked_children_spec(src, bs);
        assert forall|i: int| 0 <= i < cs.len() implies !flag(#[trigger] cs[i]) by {
            assert(cs.contains(cs[i]));
            bs.lemma_filter_contains_rev(strictly_below(src), cs[i]);
            let j = choose|j: int| 0 <= j < bs.len() && bs[j] == cs[i];
            lemma_blocked_not_flag_like(host_home(h), j);
        };
        lemma_tidy_hidden(h, cs, flag, ok);
        lemma_tidy_concat(seq![f, src, src], hide_existing(h, cs), flag, ok);
    }
}

proof fn lemma_tidy_home_file(
    h: HostEnv,
    src: Seq<char>,
    flag: spec_fn(Seq<char>) -> bool,
    ok: spec_fn(Seq<char>) -> bool,
)
    requires
        !flag(src),
        home_binds_ok(h, flag, ok),
    ensures
        tidy(home_file_args(h, src), flag, ok),
{
    if !directly_blocked(src, blocked_paths_spec(host_home(h))) {
        lemma_tidy_triple("--ro-bind-try"@, src, flag, ok);
    }
}

proof fn lemma_tidy_home(c: SandboxConfig, h: HostEnv, flag: spec_fn(Seq<char>) -> bool, ok: spec_fn(Seq<char>) -> bool)
    requires
        flag_shaped(flag),
        supplied_not_flag(c, h, flag),
        !flag("--tmpfs"@),
        home_binds_ok(h, flag, ok),
    ensures
        tidy(home_args(h), flag, ok),
{
    let home = host_home(h);
    assert(!flag(home)) by {
        if h.home is Some {
            assert(supplied(c, h, h.home->0@));
        } else {
            lemma_literal_shapes();
        }
    };
    lemma_home_rest(h, flag, ok);
    lemma_tidy_none(seq!["--tmpfs"@, home], flag, ok);
    lemma_tidy_concat(seq!["--tmpfs"@, home], home_rest(h), flag, ok);
}

proof fn lemma_tidy_binds(
    f: Seq<char>,
    ps: Seq<Seq<char>>,
    flag: spec_fn(Seq<char>) -> bool,
    ok: spec_fn(Seq<char>) -> bool,
)
    requires
        forall|i: int| 0 <= i < ps.len() ==> !flag(#[trigger] ps[i]) && (flag(f) ==> ok(ps[i])),
    ensures
        tidy(binds_args(f, ps), flag, ok),
    decreases ps.len(),
{
    if ps.len() > 0 {
        let front = ps.drop_last();
        assert forall|i: int| 0 <= i < front.len() implies !flag(#[trigger] front[i]) && (flag(f)
            ==> ok(front[i])) by {
            assert(front[i] == ps[i]);
        };
        lemma_tidy_binds(f, front, flag, ok);
        assert(!flag(ps[ps.len() - 1]));
        lemma_tidy_triple(f, ps.last(), flag, ok);
        lemma_tidy_concat(binds_args(f, front), seq![f, ps.last(), ps.last()], flag, ok);
    }
}

proof fn lemma_tidy_tail(c: SandboxConfig, flag: spec_fn(Seq<char>) -> bool, ok: spec_fn(Seq<char>) -> bool)
    requires
        config_not_flag(c, flag),
        !flag("--overlay-src"@),
        !flag("--overlay"@),
        !flag("--chdir"@),
        !flag("--"@),
    ensures
        tidy(tail_args(c), flag, ok),
{
    assert(config_supplied(c, c.repo_root@));
    assert(config_supplied(c, c.upperdir@));
    assert(config_supplied(c, c.workdir@));
    let cmd = string_views(c.command@);
    assert forall|i: int| 0 <= i < cmd.len() implies !flag(#[trigger] cmd[i]) by {
        assert(cmd.contains(cmd[i]));
        assert(config_supplied(c, cmd[i]));
    };
    let head = seq![
        "--overlay-src"@,
        c.repo_root@,
        "--overlay"@,
        c.upperdir@,
        c.workdir@,
        c.repo_root@,
        "--chdir"@,
        c.repo_root@,
        "--"@,
    ];
    lemma_tidy_none(head, flag, ok);
    lemma_tidy_none(cmd, flag, ok);
    lemma_tidy_concat(head, cmd, flag, ok);
}

/// What the middle of the argument list (from the environment to the user's
/// binds) needs of a flag and of what may follow it.
pub open spec fn middle_conditions(
    c: SandboxConfig,
    h: HostEnv,
    flag: spec_fn(Seq<char>) -> bool,
    ok: spec_fn(Seq<char>) -> bool,
) -> bool {
    &&& flag_shaped(flag)
    &&& supplied_not_flag(c, h, flag)
    &&& !flag("--clearenv"@)
    &&& !flag("--dev"@)
    &&& !flag("--proc"@)
    &&& !flag("--tmpfs"@)
    &&& !flag("--symlink"@)
    &&& (flag("--setenv"@) ==> forall|k: Seq<char>| #[trigger] set_key(c.env_passthrough@, k) ==> ok(k))
    &&& (flag("--ro-bind"@) ==> forall|p: Seq<char>| #[trigger] system_mount(p) ==> ok(p))
    &&& home_binds_ok(h, flag, ok)
    &&& (flag("--ro-bind"@) ==> forall|i: int|
        0 <= i < c.ro_binds@.len() ==> ok(#[trigger] c.ro_binds@[i]@))
    &&& (flag("--bind"@) ==> forall|i: int|
        0 <= i < c.rw_binds@.len() ==> ok(#[trigger] c.rw_binds@[i]@))
}

/// The middle of the argument list.
pub open spec fn middle_args(c: SandboxConfig, h: HostEnv) -> Seq<Seq<char>> {
    env_args(h, c.env_passthrough@) + system_args(h) + home_args(h) + binds_args(
        "--ro-bind"@,
        string_views(c.ro_binds@),
    ) + binds_args("--bind"@, string_views(c.rw_binds@))
}

pub proof fn lemma_args_parts(c: SandboxConfig, h: HostEnv)
    ensures
        sandbox_args(c, h) == namespace_args(c.no_net) + middle_args(c, h) + tail_args(c),
{
    assert(sandbox_args(c, h) =~= namespace_args(c.no_net) + middle_args(c, h) + tail_args(c));
}

proof fn lemma_tidy_middle(c: SandboxConfig, h: HostEnv, flag: spec_fn(Seq<char>) -> bool, ok: spec_fn(Seq<char>) -> bool)
    requires
        middle_conditions(c, h, flag, ok),
    ensures
        tidy(middle_args(c, h), flag, ok),
{
    lemma_tidy_env(c, h, flag, ok);
    lemma_tidy_system(h, flag, ok);
    lemma_tidy_home(c, h, flag, ok);
    let ro = string_views(c.ro_binds@);
    let rw = string_views(c.rw_binds@);
    assert forall|i: int| 0 <= i < ro.len() implies !flag(#[trigger] ro[i]) && (flag("--ro-bind"@)
        ==> ok(ro[i])) by {
        assert(ro.contains(ro[i]));
        assert(supplied(c, h, ro[i]));
        assert(ro[i] == c.ro_binds@[i]@);
    };
    assert forall|i: int| 0 <= i < rw.len() implies !flag(#[trigger] rw[i]) && (flag("--bind"@)
        ==> ok(rw[i])) by {
        assert(rw.contains(rw[i]));
        assert(supplied(c, h, rw[i]));
        assert(rw[i] == c.rw_binds@[i]@);
    };
    lemma_tidy_binds("--ro-bind"@, ro, flag, ok);
    lemma_tidy_binds("--bind"@, rw, flag, ok);
    let s1 = env_args(h, c.env_passthrough@);
    let s2 = system_args(h);
    let s3 = home_args(h);
    let s4 = binds_args("--ro-bind"@, ro);
    let s5 = binds_args("--bind"@, rw);
    lemma_tidy_concat(s1, s2, flag, ok);
    lemma_tidy_concat(s1 + s2, s3, flag, ok);
    lemma_tidy_concat(s1 + s2 + s3, s4, flag, ok);
    lemma_tidy_concat(s1 + s2 + s3 + s4, s5, flag, ok);
}

proof fn lemma_flag_shapes()
    ensures
        dashed("--ro-bind"@) && flag_like_end("--ro-bind"@),
        dashed("--bind"@) && flag_like_end("--bind"@),
        dashed("--ro-bind-try"@) && flag_like_end("--ro-bind-try"@),
        dashed("--bind-try"@) && flag_like_end("--bind-try"@),
        dashed("--setenv"@) && flag_like_end("--setenv"@),
        dashed("--share-net"@) && flag_like_end("--share-net"@),
        dashed("--"@) && "--"@.len() == 2,
{
    reveal_strlit("--ro-bind");
    reveal_strlit("--bind");
    reveal_strlit("--ro-bind-try");
    reveal_strlit("--bind-try");
    reveal_strlit("--setenv");
    reveal_strlit("--share-net");
    reveal_strlit("--");
    assert("--ro-bind"@[8] == 'd' && "--ro-bind"@[7] == 'n');
    assert("--bind"@[5] == 'd' && "--bind"@[4] == 'n');
    assert("--ro-bind-try"@[12] == 'y');
    assert("--bind-try"@[9] == 'y');
    assert("--setenv"@[7] == 'v');
    assert("--share-net"@[10] == 't');
}

// ---------------------------------------------------------------------------
// Host values that look like options.
// ---------------------------------------------------------------------------

/// Like `tidy`, but a flag in the last place needs nothing: what follows it
/// comes from the next part of the list.
pub open spec fn tidy_in(
    s: Seq<Seq<char>>,
    flag: spec_fn(Seq<char>) -> bool,
    ok: spec_fn(Seq<char>) -> bool,
) -> bool {
    forall|i: int| 0 <= i < s.len() - 1 && flag(#[trigger] s[i]) ==> ok(s[i + 1])
}

proof fn lemma_tidy_in_concat(
    a: Seq<Seq<char>>,
    b: Seq<Seq<char>>,
    flag: spec_fn(Seq<char>) -> bool,
    ok: spec_fn(Seq<char>) -> bool,
)
    requires
        tidy_in(a, flag, ok),
        tidy_in(b, flag, ok),
        a.len() > 0 && b.len() > 0 && flag(a.last()) ==> ok(b[0]),
    ensures
        tidy_in(a + b, flag, ok),
{
    let s = a + b;
    assert forall|i: int| 0 <= i < s.len() - 1 && flag(#[trigger] s[i]) implies ok(s[i + 1]) by {
        if i < a.len() - 1 {
            assert(s[i] == a[i] && s[i + 1] == a[i + 1]);
        } else if i == a.len() - 1 {
            assert(s[i] == a.last() && s[i + 1] == b[0]);
        } else {
            assert(s[i] == b[i - a.len()] && s[i + 1] == b[i + 1 - a.len()]);
        }
    }
}

proof fn lemma_tidy_to_in(s: Seq<Seq<char>>, flag: spec_fn(Seq<char>) -> bool, ok: spec_fn(Seq<char>) -> bool)
    requires
        tidy(s, flag, ok),
    ensures
        tidy_in(s, flag, ok),
        s.len() > 0 ==> !flag(s.last()),
{
    if s.len() > 0 && flag(s.last()) {
        assert(flag(s[s.len() - 1]));
    }
}

proof fn lemma_in_to_tidy(s: Seq<Seq<char>>, flag: spec_fn(Seq<char>) -> bool, ok: spec_fn(Seq<char>) -> bool)
    requires
        tidy_in(s, flag, ok),
        s.len() > 0 ==> !flag(s.last()),
    ensures
        tidy(s, flag, ok),
{
    assert forall|i: int| 0 <= i < s.len() && flag(#[trigger] s[i]) implies i + 1 < s.len() && ok(
        s[i + 1],
    ) by {
        if i == s.len() - 1 {
            assert(s[i] == s.last());
        }
    }
}

/// The options that may follow a host value in the argument list.
pub open spec fn openers_ok(ok: spec_fn(Seq<char>) -> bool) -> bool {
    &&& ok("--setenv"@)
    &&& ok("--dev"@)
    &&& ok("--ro-bind-try"@)
    &&& ok("--bind-try"@)
    &&& ok("--ro-bind"@)
    &&& ok("--bind"@)
    &&& ok("--overlay-src"@)
}

/// Every one of those options starts with two dashes.
proof fn lemma_openers_dashed()
    ensures
        dashed("--setenv"@),
        dashed("--dev"@),
        dashed("--ro-bind-try"@),
        dashed("--bind-try"@),
        dashed("--ro-bind"@),
        dashed("--bind"@),
        dashed("--overlay-src"@),
{
    reveal_strlit("--setenv");
    reveal_strlit("--dev");
    reveal_strlit("--ro-bind-try");
    reveal_strlit("--bind-try");
    reveal_strlit("--ro-bind");
    reveal_strlit("--bind");
    reveal_strlit("--overlay-src");
}

/// A relative path of one name that is not a blocked name is not blocked.
proof fn lemma_rel_name_not_blocked(name: Seq<char>, home: Seq<char>)
    requires
        simple_name(name),
        name[0] != '.',
        name[0] != '/',
        !blocked_last_names().contains(name),
    ensures
        !directly_blocked(name, blocked_paths_spec(home)),
{
    lemma_pieces_no_slash(name);
    assert(pieces(name)[0] != seq!['.']) by {
        assert(pieces(name)[0][0] == name[0]);
    }
    assert(seq![name].drop_last() =~= Seq::<Seq<char>>::empty());
    assert(crate::paths::normal_pieces(Seq::<Seq<char>>::empty()) == Seq::<Seq<char>>::empty());
    assert(crate::paths::normal_pieces(seq![name]) =~= seq![name]);
    assert(pieces(name)[0] != crate::paths::cur_component());
    assert(crate::paths::lead_components(name) =~= Seq::<Seq<char>>::empty());
    assert(components(name) =~= seq![name]);
    let bs = blocked_paths_spec(home);
    if directly_blocked(name, bs) {
        let i = choose|i: int|
            0 <= i < bs.len() && (same_path(name, #[trigger] bs[i]) || crate::paths::path_starts_with(
                name,
                bs[i],
            ));
        lemma_blocked_last(home, i);
        let cb = components(bs[i]);
        assert(cb.len() <= 1);
        assert(cb.len() == 1);
        assert(cb[0] == components(name).subrange(0, 1)[0]);
        assert(cb.last() == name);
    }
}

/// None of those options is a blocked path.
proof fn lemma_openers_not_blocked(home: Seq<char>)
    ensures
        !directly_blocked("--setenv"@, blocked_paths_spec(home)),
        !directly_blocked("--dev"@, blocked_paths_spec(home)),
        !directly_blocked("--ro-bind-try"@, blocked_paths_spec(home)),
        !directly_blocked("--bind-try"@, blocked_paths_spec(home)),
        !directly_blocked("--ro-bind"@, blocked_paths_spec(home)),
        !directly_blocked("--bind"@, blocked_paths_spec(home)),
        !directly_blocked("--overlay-src"@, blocked_paths_spec(home)),
{
    reveal_strlit("--setenv");
    reveal_strlit("--dev");
    reveal_strlit("--ro-bind-try");
    reveal_strlit("--bind-try");
    reveal_strlit("--ro-bind");
    reveal_strlit("--bind");
    reveal_strlit("--overlay-src");
    let names = seq!["--setenv"@, "--dev"@, "--ro-bind-try"@, "--bind-try"@, "--ro-bind"@, "--bind"@, "--overlay-src"@];
    assert forall|i: int| 0 <= i < names.len() implies simple_name(#[trigger] names[i]) && !blocked_last_names().contains(names[i]) by {
        let n = names[i];
        assert(n[0] == '-');
        assert(!n.contains('/')) by {
            if n.contains('/') {
                let j = choose|j: int| 0 <= j < n.len() && n[j] == '/';
            }
        }
        if blocked_last_names().contains(n) {
            let j = choose|j: int| 0 <= j < blocked_last_names().len() && blocked_last_names()[j] == n;
            assert(blocked_last_names()[j][0] != '-');
        }
    }
    assert(names[0] == "--setenv"@);
    lemma_rel_name_not_blocked(names[0], home);
    lemma_rel_name_not_blocked(names[1], home);
    lemma_rel_name_not_blocked(names[2], home);
    lemma_rel_name_not_blocked(names[3], home);
    lemma_rel_name_not_blocked(names[4], home);
    lemma_rel_name_not_blocked(names[5], home);
    lemma_rel_name_not_blocked(names[6], home);
}

proof fn lemma_passthrough_first(vars: Seq<(String, String)>)
    ensures
        passthrough_args(vars).len() > 0 ==> passthrough_args(vars)[0] == "--setenv"@,
    decreases vars.len(),
{
    if vars.len() > 0 {
        lemma_passthrough_first(vars.drop_last());
    }
}

proof fn lemma_binds_first(f: Seq<char>, ps: Seq<Seq<char>>)
    ensures
        binds_args(f, ps).len() > 0 ==> binds_args(f, ps)[0] == f,
    decreases ps.len(),
{
    if ps.len() > 0 {
        lemma_binds_first(f, ps.drop_last());
    }
}

/// The environment part, whatever values the host gives its variables.
proof fn lemma_tidy_in_env(
    c: SandboxConfig,
    h: HostEnv,
    flag: spec_fn(Seq<char>) -> bool,
    ok: spec_fn(Seq<char>) -> bool,
)
    requires
        flag_shaped(flag),
        config_not_flag(c, flag),
        !flag("--clearenv"@),
        openers_ok(ok),
        flag("--setenv"@) ==> forall|k: Seq<char>| #[trigger] set_key(c.env_passthrough@, k) ==> ok(k),
    ensures
        tidy_in(env_args(h, c.env_passthrough@), flag, ok),
{
    lemma_literal_shapes();
    let vars = c.env_passthrough@;
    assert(!flag("HOME"@) && !flag("USER"@) && !flag("PATH"@) && !flag("TERM"@) && !flag(
        "LANG"@,
    ) && !flag("SHELL"@));
    assert(flag("--setenv"@) ==> ok("HOME"@) && ok("USER"@) && ok("PATH"@) && ok("TERM"@) && ok(
        "LANG"@,
    ) && ok("SHELL"@)) by {
        if flag("--setenv"@) {
            assert(set_key(vars, "HOME"@));
            assert(set_key(vars, "USER"@));
            assert(set_key(vars, "PATH"@));
            assert(set_key(vars, "TERM"@));
            assert(set_key(vars, "LANG"@));
            assert(set_key(vars, "SHELL"@));
        }
    };
    assert forall|j: int| 0 <= j < vars.len() implies !flag((#[trigger] vars[j]).0@) && !flag(
        vars[j].1@,
    ) && (flag("--setenv"@) ==> ok(vars[j].0@)) by {
        assert(config_supplied(c, vars[j].0@));
        assert(config_supplied(c, vars[j].1@));
        if flag("--setenv"@) {
            assert(set_key(vars, vars[j].0@));
        }
    };
    let s0 = seq!["--clearenv"@];
    let s1 = setenv("HOME"@, host_home(h));
    let s2 = setenv("USER"@, env_or(h.user, "nobody"@));
    let s3 = setenv("PATH"@, env_or(h.path, "/usr/bin:/bin"@));
    let s4 = setenv("TERM"@, env_or(h.term, "xterm"@));
    let s5 = setenv("LANG"@, env_or(h.lang, "C.UTF-8"@));
    let s6 = setenv("SHELL"@, env_or(h.shell, "/bin/sh"@));
    let p = passthrough_args(vars);
    lemma_tidy_passthrough(vars, flag, ok);
    lemma_tidy_to_in(p, flag, ok);
    lemma_passthrough_first(vars);
    assert(tidy_in(s0, flag, ok));
    assert(tidy_in(s1, flag, ok));
    assert(tidy_in(s2, flag, ok));
    assert(tidy_in(s3, flag, ok));
    assert(tidy_in(s4, flag, ok));
    assert(tidy_in(s5, flag, ok));
    assert(tidy_in(s6, flag, ok));
    lemma_tidy_in_concat(s0, s1, flag, ok);
    lemma_tidy_in_concat(s0 + s1, s2, flag, ok);
    lemma_tidy_in_concat(s0 + s1 + s2, s3, flag, ok);
    lemma_tidy_in_concat(s0 + s1 + s2 + s3, s4, flag, ok);
    lemma_tidy_in_concat(s0 + s1 + s2 + s3 + s4, s5, flag, ok);
    lemma_tidy_in_concat(s0 + s1 + s2 + s3 + s4 + s5, s6, flag, ok);
    lemma_tidy_in_concat(s0 + s1 + s2 + s3 + s4 + s5 + s6, p, flag, ok);
    assert(env_args(h, vars) == s0 + s1 + s2 + s3 + s4 + s5 + s6 + p);
}

/// The home part after its empty file system.
pub open spec fn home_rest(h: HostEnv) -> Seq<Seq<char>> {
    let home = host_home(h);
    home_dir_args(h, "--ro-bind-try"@, home + "/.config"@) + home_dir_args(
        h,
        "--ro-bind-try"@,
        home + "/.local"@,
    ) + home_dir_args(h, "--bind-try"@, home + "/.cache"@) + home_file_args(h, home + "/.bashrc"@)
        + home_file_args(h, home + "/.profile"@) + home_file_args(h, home + "/.gitconfig"@)
}

/// A part that, when it has anything, starts with one of `firsts`.
pub open spec fn starts_among(s: Seq<Seq<char>>, firsts: Seq<Seq<char>>) -> bool {
    s.len() > 0 ==> firsts.contains(s[0])
}

proof fn lemma_starts_concat(a: Seq<Seq<char>>, b: Seq<Seq<char>>, firsts: Seq<Seq<char>>)
    requires
        starts_among(a, firsts),
        starts_among(b, firsts),
    ensures
        starts_among(a + b, firsts),
{
    if a.len() > 0 {
        assert((a + b)[0] == a[0]);
    } else if b.len() > 0 {
        assert((a + b)[0] == b[0]);
    }
}

proof fn lemma_home_rest(h: HostEnv, flag: spec_fn(Seq<char>) -> bool, ok: spec_fn(Seq<char>) -> bool)
    requires
        flag_shaped(flag),
        !flag("--tmpfs"@),
        home_binds_ok(h, flag, ok),
    ensures
        tidy(home_rest(h), flag, ok),
        starts_among(home_rest(h), seq!["--ro-bind-try"@, "--bind-try"@]),
        home_args(h) == seq!["--tmpfs"@, host_home(h)] + home_rest(h),
{
    lemma_literal_shapes();
    let home = host_home(h);
    let firsts = seq!["--ro-bind-try"@, "--bind-try"@];
    assert(firsts[0] == "--ro-bind-try"@ && firsts[1] == "--bind-try"@);
    lemma_home_src_not_flag(home, "/.config"@, flag);
    lemma_home_src_not_flag(home, "/.local"@, flag);
    lemma_home_src_not_flag(home, "/.cache"@, flag);
    lemma_home_src_not_flag(home, "/.bashrc"@, flag);
    lemma_home_src_not_flag(home, "/.profile"@, flag);
    lemma_home_src_not_flag(home, "/.gitconfig"@, flag);
    let s1 = home_dir_args(h, "--ro-bind-try"@, home + "/.config"@);
    let s2 = home_dir_args(h, "--ro-bind-try"@, home + "/.local"@);
    let s3 = home_dir_args(h, "--bind-try"@, home + "/.cache"@);
    let s4 = home_file_args(h, home + "/.bashrc"@);
    let s5 = home_file_args(h, home + "/.profile"@);
    let s6 = home_file_args(h, home + "/.gitconfig"@);
    lemma_tidy_home_dir(h, "--ro-bind-try"@, home + "/.config"@, flag, ok);
    lemma_tidy_home_dir(h, "--ro-bind-try"@, home + "/.local"@, flag, ok);
    lemma_tidy_home_dir(h, "--bind-try"@, home + "/.cache"@, flag, ok);
    lemma_tidy_home_file(h, home + "/.bashrc"@, flag, ok);
    lemma_tidy_home_file(h, home + "/.profile"@, flag, ok);
    lemma_tidy_home_file(h, home + "/.gitconfig"@, flag, ok);
    lemma_tidy_concat(s1, s2, flag, ok);
    lemma_tidy_concat(s1 + s2, s3, flag, ok);
    lemma_tidy_concat(s1 + s2 + s3, s4, flag, ok);
    lemma_tidy_concat(s1 + s2 + s3 + s4, s5, flag, ok);
    lemma_tidy_concat(s1 + s2 + s3 + s4 + s5, s6, flag, ok);
    assert(starts_among(s1, firsts));
    assert(starts_among(s2, firsts));
    assert(starts_among(s3, firsts));
    assert(starts_among(s4, firsts));
    assert(starts_among(s5, firsts));
    assert(starts_among(s6, firsts));
    lemma_starts_concat(s1, s2, firsts);
    lemma_starts_concat(s1 + s2, s3, firsts);
    lemma_starts_concat(s1 + s2 + s3, s4, firsts);
    lemma_starts_concat(s1 + s2 + s3 + s4, s5, firsts);
    lemma_starts_concat(s1 + s2 + s3 + s4 + s5, s6, firsts);
    assert(home_args(h) =~= seq!["--tmpfs"@, home] + home_rest(h));
}

/// The whole argument list, whatever values the host gives its variables:
/// a flag that is an option of the list is followed by what `ok` allows,
/// provided every option that may follow a host value is allowed.
proof fn lemma_tidy_all(c: SandboxConfig, h: HostEnv, flag: spec_fn(Seq<char>) -> bool, ok: spec_fn(Seq<char>) -> bool)
    requires
        flag_shaped(flag),
        config_not_flag(c, flag),
        openers_ok(ok),
        !flag("--unshare-all"@),
        !flag("--share-net"@),
        !flag("--die-with-parent"@),
        !flag("--hostname"@),
        !flag("--clearenv"@),
        !flag("--dev"@),
        !flag("--proc"@),
        !flag("--tmpfs"@),
        !flag("--symlink"@),
        !flag("--overlay-src"@),
        !flag("--overlay"@),
        !flag("--chdir"@),
        !flag("--"@),
        flag("--setenv"@) ==> forall|k: Seq<char>| #[trigger] set_key(c.env_passthrough@, k) ==> ok(k),
        flag("--ro-bind"@) ==> forall|p: Seq<char>| #[trigger] system_mount(p) ==> ok(p),
        home_binds_ok(h, flag, ok),
        flag("--ro-bind"@) ==> forall|i: int|
            0 <= i < c.ro_binds@.len() ==> ok(#[trigger] c.ro_binds@[i]@),
        flag("--bind"@) ==> forall|i: int|
            0 <= i < c.rw_binds@.len() ==> ok(#[trigger] c.rw_binds@[i]@),
    ensures
        tidy(sandbox_args(c, h), flag, ok),
{
    let n = namespace_args(c.no_net);
    let e = env_args(h, c.env_passthrough@);
    let sy = system_args(h);
    let s0 = seq!["--tmpfs"@, host_home(h)];
    let r = home_rest(h);
    let ro = string_views(c.ro_binds@);
    let rw = string_views(c.rw_binds@);
    let t = binds_args("--ro-bind"@, ro) + binds_args("--bind"@, rw) + tail_args(c);
    lemma_tidy_namespace(c.no_net, flag, ok);
    lemma_tidy_to_in(n, flag, ok);
    lemma_tidy_in_env(c, h, flag, ok);
    lemma_tidy_system(h, flag, ok);
    lemma_tidy_to_in(sy, flag, ok);
    lemma_home_rest(h, flag, ok);
    assert forall|i: int| 0 <= i < ro.len() implies !flag(#[trigger] ro[i]) && (flag("--ro-bind"@)
        ==> ok(ro[i])) by {
        assert(ro.contains(ro[i]));
        assert(config_supplied(c, ro[i]));
        assert(ro[i] == c.ro_binds@[i]@);
    };
    assert forall|i: int| 0 <= i < rw.len() implies !flag(#[trigger] rw[i]) && (flag("--bind"@)
        ==> ok(rw[i])) by {
        assert(rw.contains(rw[i]));
        assert(config_supplied(c, rw[i]));
        assert(rw[i] == c.rw_binds@[i]@);
    };
    lemma_tidy_binds("--ro-bind"@, ro, flag, ok);
    lemma_tidy_binds("--bind"@, rw, flag, ok);
    lemma_tidy_tail(c, flag, ok);
    lemma_tidy_concat(binds_args("--ro-bind"@, ro), binds_args("--bind"@, rw), flag, ok);
    lemma_tidy_concat(binds_args("--ro-bind"@, ro) + binds_args("--bind"@, rw), tail_args(c), flag, ok);
    lemma_tidy_concat(r, t, flag, ok);
    lemma_tidy_to_in(r + t, flag, ok);
    // What follows the home directory's empty file system is an option.
    let firsts = seq!["--ro-bind-try"@, "--bind-try"@, "--ro-bind"@, "--bind"@, "--overlay-src"@];
    lemma_binds_first("--ro-bind"@, ro);
    lemma_binds_first("--bind"@, rw);
    assert(tail_args(c)[0] == "--overlay-src"@);
    assert(starts_among(r, firsts)) by {
        let f2 = seq!["--ro-bind-try"@, "--bind-try"@];
        if r.len() > 0 {
            assert(f2.contains(r[0]));
            let j = choose|j: int| 0 <= j < f2.len() && f2[j] == r[0];
            assert(firsts[j] == f2[j]);
        }
    }
    assert(starts_among(binds_args("--ro-bind"@, ro), firsts)) by {
        assert(firsts[2] == "--ro-bind"@);
    }
    assert(starts_among(binds_args("--bind"@, rw), firsts)) by {
        assert(firsts[3] == "--bind"@);
    }
    assert(starts_among(tail_args(c), firsts)) by {
        assert(firsts[4] == "--overlay-src"@);
    }
    lemma_starts_concat(binds_args("--ro-bind"@, ro), binds_args("--bind"@, rw), firsts);
    lemma_starts_concat(binds_args("--ro-bind"@, ro) + binds_args("--bind"@, rw), tail_args(c), firsts);
    lemma_starts_concat(r, t, firsts);
    assert((r + t).len() > 0);
    assert(ok((r + t)[0])) by {
        let j = choose|j: int| 0 <= j < firsts.len() && firsts[j] == (r + t)[0];
    }
    assert(sy[0] == "--dev"@);
    assert(tidy_in(s0, flag, ok));
    lemma_tidy_in_concat(n, e, flag, ok);
    lemma_tidy_in_concat(n + e, sy, flag, ok);
    lemma_tidy_in_concat(n + e + sy, s0, flag, ok);
    lemma_tidy_in_concat(n + e + sy + s0, r + t, flag, ok);
    let all = n + e + sy + s0 + (r + t);
    assert(all.last() == (r + t).last());
    lemma_in_to_tidy(all, flag, ok);
    lemma_home_rest(h, flag, ok);
    assert(sandbox_args(c, h) =~= all);
}

// ---------------------------------------------------------------------------
// The laws.
// ---------------------------------------------------------------------------

/// The options that bind-mount a path into the sandbox.
pub open spec fn is_bind_flag(x: Seq<char>) -> bool {
    x == "--ro-bind"@ || x == "--bind"@ || x == "--ro-bind-try"@ || x == "--bind-try"@
}

/// One of the user's own extra binds.
pub open spec fn user_bind(c: SandboxConfig, x: Seq<char>) -> bool {
    string_views(c.ro_binds@).contains(x) || string_views(c.rw_binds@).contains(x)
}

/// Credentials are never mounted: every path that the argument list
/// bind-mounts is either one the user asked for with `--ro-bind`/`--bind`,
/// or neither a blocked path of the home directory nor below one, whatever
/// the host's environment holds, provided no string of the configuration is
/// itself a bind option. So when the user's own binds avoid the blocked
/// paths, no bind-mounted path is blocked.
pub proof fn law_blocked_paths_never_bind_mounted(c: SandboxConfig, h: HostEnv)
    requires
        forall|x: Seq<char>| #[trigger] config_supplied(c, x) ==> !is_bind_flag(x),
    ensures
        forall|i: int|
            0 <= i < sandbox_args(c, h).len() && is_bind_flag(#[trigger] sandbox_args(c, h)[i])
                ==> i + 1 < sandbox_args(c, h).len() && (!directly_blocked(
                sandbox_args(c, h)[i + 1],
                blocked_paths_spec(host_home(h)),
            ) || user_bind(c, sandbox_args(c, h)[i + 1])),
        (forall|x: Seq<char>|
            #[trigger] user_bind(c, x) ==> !directly_blocked(x, blocked_paths_spec(host_home(h))))
            ==> forall|i: int|
            0 <= i < sandbox_args(c, h).len() && is_bind_flag(#[trigger] sandbox_args(c, h)[i])
                ==> i + 1 < sandbox_args(c, h).len() && !directly_blocked(
                sandbox_args(c, h)[i + 1],
                blocked_paths_spec(host_home(h)),
            ),
{
    let bs = blocked_paths_spec(host_home(h));
    let flag = |x: Seq<char>| is_bind_flag(x);
    let ok = |x: Seq<char>| !directly_blocked(x, bs) || user_bind(c, x);
    lemma_literal_shapes();
    lemma_flag_shapes();
    lemma_system_paths_not_blocked(host_home(h));
    lemma_openers_not_blocked(host_home(h));
    assert(flag_shaped(flag));
    assert(config_not_flag(c, flag));
    assert(openers_ok(ok));
    assert forall|p: Seq<char>| #[trigger] system_mount(p) implies ok(p) by {
        if etc_paths().contains(p) {
            let i = choose|i: int| 0 <= i < etc_paths().len() && etc_paths()[i] == p;
        }
        if share_paths().contains(p) {
            let i = choose|i: int| 0 <= i < share_paths().len() && share_paths()[i] == p;
        }
    };
    assert forall|i: int| 0 <= i < c.ro_binds@.len() implies ok(#[trigger] c.ro_binds@[i]@) by {
        assert(string_views(c.ro_binds@)[i] == c.ro_binds@[i]@);
        assert(string_views(c.ro_binds@).contains(c.ro_binds@[i]@));
    };
    assert forall|i: int| 0 <= i < c.rw_binds@.len() implies ok(#[trigger] c.rw_binds@[i]@) by {
        assert(string_views(c.rw_binds@)[i] == c.rw_binds@[i]@);
        assert(string_views(c.rw_binds@).contains(c.rw_binds@[i]@));
    };
    lemma_tidy_all(c, h, flag, ok);
    let a = sandbox_args(c, h);
    assert forall|i: int| 0 <= i < a.len() && is_bind_flag(#[trigger] a[i]) implies i + 1 < a.len()
        && ok(a[i + 1]) by {
        assert(flag(a[i]));
    }
}

/// The environment stays minimal: every `--setenv` in the argument list is
/// followed by `HOME`, `USER`, `PATH`, `TERM`, `LANG`, `SHELL` or a variable
/// passed through on purpose, or, only where a host value is itself
/// `--setenv`, by the next option (which starts with `--`, as no variable
/// name does); whatever the host's environment holds, provided no string of
/// the configuration is itself `--setenv`. So no other variable, such as
/// `DISPLAY` or `DBUS_SESSION_BUS_ADDRESS`, is ever set.
pub proof fn law_only_safe_variables_set(c: SandboxConfig, h: HostEnv)
    requires
        forall|x: Seq<char>| #[trigger] config_supplied(c, x) ==> x != "--setenv"@,
    ensures
        forall|i: int|
            0 <= i < sandbox_args(c, h).len() && #[trigger] sandbox_args(c, h)[i] == "--setenv"@
                ==> i + 1 < sandbox_args(c, h).len() && (set_key(
                c.env_passthrough@,
                sandbox_args(c, h)[i + 1],
            ) || dashed(sandbox_args(c, h)[i + 1])),
{
    let flag = |x: Seq<char>| x == "--setenv"@;
    let ok = |x: Seq<char>| set_key(c.env_passthrough@, x) || dashed(x);
    lemma_literal_shapes();
    lemma_flag_shapes();
    lemma_openers_dashed();
    assert(flag_shaped(flag));
    assert(config_not_flag(c, flag));
    assert(openers_ok(ok));
    lemma_tidy_all(c, h, flag, ok);
    let a = sandbox_args(c, h);
    assert forall|i: int|
        0 <= i < a.len() && #[trigger] a[i] == "--setenv"@ implies i + 1 < a.len() && ok(a[i + 1]) by {
        assert(flag(a[i]));
    };
}

/// The network is shared with the sandbox exactly when it is not switched
/// off, provided no supplied string is itself `--share-net`.
pub proof fn law_share_net_iff_network(c: SandboxConfig, h: HostEnv)
    requires
        forall|x: Seq<char>| #[trigger] supplied(c, h, x) ==> x != "--share-net"@,
    ensures
        sandbox_args(c, h).contains("--share-net"@) <==> !c.no_net,
{
    let flag = |x: Seq<char>| x == "--share-net"@;
    let ok = |x: Seq<char>| false;
    lemma_literal_shapes();
    lemma_flag_shapes();
    assert(flag_shaped(flag));
    assert(supplied_not_flag(c, h, flag));
    assert(middle_conditions(c, h, flag, ok));
    lemma_tidy_middle(c, h, flag, ok);
    lemma_config_not_flag(c, h, flag);
    lemma_tidy_tail(c, flag, ok);
    lemma_tidy_concat(middle_args(c, h), tail_args(c), flag, ok);
    lemma_args_parts(c, h);
    let ns = namespace_args(c.no_net);
    let rest = middle_args(c, h) + tail_args(c);
    let a = sandbox_args(c, h);
    assert(a =~= ns + rest);
    if !c.no_net {
        assert(a[1] == "--share-net"@);
    } else {
        if a.contains("--share-net"@) {
            let i = choose|i: int| 0 <= i < a.len() && a[i] == "--share-net"@;
            if i < ns.len() {
                assert(ns[i] == "--share-net"@);
            } else {
                assert(rest[i - ns.len()] == "--share-net"@);
                assert(flag(rest[i - ns.len()]));
            }
        }
    }
}

/// The sandbox runs the given command: it closes the argument list, right
/// after the `--` separator, and no earlier argument is `--` when no
/// supplied string is.
pub proof fn law_command_after_separator(c: SandboxConfig, h: HostEnv)
    ensures
        ({
            let a = sandbox_args(c, h);
            let n = c.command@.len();
            &&& a.len() > n
            &&& a.subrange(a.len() - n, a.len() as int) == string_views(c.command@)
            &&& a[a.len() - n - 1] == "--"@
        }),
        (forall|x: Seq<char>| #[trigger] supplied(c, h, x) ==> x != "--"@) ==> forall|i: int|
            0 <= i < sandbox_args(c, h).len() - c.command@.len() - 1 ==> #[trigger] sandbox_args(
                c,
                h,
            )[i] != "--"@,
{
    lemma_args_parts(c, h);
    let a = sandbox_args(c, h);
    let ns = namespace_args(c.no_net);
    let mid = middle_args(c, h);
    let cmd = string_views(c.command@);
    let head = seq![
        "--overlay-src"@,
        c.repo_root@,
        "--overlay"@,
        c.upperdir@,
        c.workdir@,
        c.repo_root@,
        "--chdir"@,
        c.repo_root@,
        "--"@,
    ];
    assert(tail_args(c) == head + cmd);
    assert(a =~= (ns + mid + head) + cmd);
    assert(a.subrange(a.len() - cmd.len(), a.len() as int) =~= cmd);
    assert(a[a.len() - cmd.len() - 1] == head[8]);
    if forall|x: Seq<char>| #[trigger] supplied(c, h, x) ==> x != "--"@ {
        let flag = |x: Seq<char>| x == "--"@;
        let ok = |x: Seq<char>| false;
        lemma_literal_shapes();
        lemma_flag_shapes();
        assert(flag_shaped(flag));
        assert(supplied_not_flag(c, h, flag));
        assert(middle_conditions(c, h, flag, ok));
        lemma_tidy_middle(c, h, flag, ok);
        lemma_tidy_namespace(c.no_net, flag, ok);
        assert(supplied(c, h, c.repo_root@));
        assert(supplied(c, h, c.upperdir@));
        assert(supplied(c, h, c.workdir@));
        let head8 = head.subrange(0, 8);
        lemma_tidy_none(head8, flag, ok);
        lemma_tidy_concat(ns, mid, flag, ok);
        lemma_tidy_concat(ns + mid, head8, flag, ok);
        let pre = ns + mid + head8;
        assert forall|i: int| 0 <= i < a.len() - cmd.len() - 1 implies #[trigger] a[i] != "--"@ by {
            assert(a[i] == pre[i]);
            if pre[i] == "--"@ {
                assert(flag(pre[i]));
            }
        };
    }
}

proof fn lemma_passthrough_window(vars: Seq<(String, String)>, j: int)
    requires
        0 <= j < vars.len(),
    ensures
        passthrough_args(vars).len() == 3 * vars.len(),
        passthrough_args(vars).subrange(3 * j, 3 * j + 3) == setenv(vars[j].0@, vars[j].1@),
    decreases vars.len(),
{
    lemma_passthrough_len(vars);
    let front = vars.drop_last();
    if j < vars.len() - 1 {
        lemma_passthrough_window(front, j);
        assert(front[j] == vars[j]);
        assert(passthrough_args(vars).subrange(3 * j, 3 * j + 3) =~= passthrough_args(
            front,
        ).subrange(3 * j, 3 * j + 3));
    } else {
        lemma_passthrough_len(front);
        assert(passthrough_args(vars).subrange(3 * j, 3 * j + 3) =~= setenv(
            vars[j].0@,
            vars[j].1@,
        ));
    }
}

proof fn lemma_passthrough_len(vars: Seq<(String, String)>)
    ensures
        passthrough_args(vars).len() == 3 * vars.len(),
    decreases vars.len(),
{
    if vars.len() > 0 {
        lemma_passthrough_len(vars.drop_last());
    }
}

proof fn lemma_binds_len(f: Seq<char>, ps: Seq<Seq<char>>)
    ensures
        binds_args(f, ps).len() == 3 * ps.len(),
    decreases ps.len(),
{
    if ps.len() > 0 {
        lemma_binds_len(f, ps.drop_last());
    }
}

proof fn lemma_binds_window(f: Seq<char>, ps: Seq<Seq<char>>, j: int)
    requires
        0 <= j < ps.len(),
    ensures
        binds_args(f, ps).len() == 3 * ps.len(),
        binds_args(f, ps)[3 * j] == f,
        binds_args(f, ps)[3 * j + 1] == ps[j],
    decreases ps.len(),
{
    lemma_binds_len(f, ps);
    let front = ps.drop_last();
    lemma_binds_len(f, front);
    if j < ps.len() - 1 {
        lemma_binds_window(f, front, j);
        assert(front[j] == ps[j]);
    }
}

/// The namespace options: all namespaces unshared first, the sandbox dies
/// with its parent, its hostname is `slopwrap` (the first `--hostname` is
/// followed by it), and the inherited environment is cleared.
pub proof fn law_isolation_options(c: SandboxConfig, h: HostEnv)
    ensures
        sandbox_args(c, h)[0] == "--unshare-all"@,
        sandbox_args(c, h).contains("--die-with-parent"@),
        sandbox_args(c, h).contains("--clearenv"@),
        exists|i: int|
            0 <= i < sandbox_args(c, h).len() - 1 && #[trigger] sandbox_args(c, h)[i]
                == "--hostname"@ && sandbox_args(c, h)[i + 1] == "slopwrap"@ && forall|j: int|
                0 <= j < i ==> #[trigger] sandbox_args(c, h)[j] != "--hostname"@,
{
    lemma_args_parts(c, h);
    lemma_literal_shapes();
    let a = sandbox_args(c, h);
    let ns = namespace_args(c.no_net);
    let mid = middle_args(c, h);
    assert(a =~= ns + (mid + tail_args(c)));
    let k = ns.len() as int;
    assert(a[0] == ns[0]);
    assert(a[k - 3] == "--die-with-parent"@);
    assert(mid[0] == "--clearenv"@);
    assert(a[k] == mid[0]);
    assert(a[k - 2] == "--hostname"@);
    assert(a[k - 1] == "slopwrap"@);
    assert(forall|j: int| 0 <= j < k - 2 ==> #[trigger] a[j] != "--hostname"@);
}

/// The safe environment is set: `HOME` to the home directory, and `USER`,
/// `PATH`, `TERM`, `LANG` and `SHELL` to the host's values or their defaults.
pub proof fn law_safe_environment_set(c: SandboxConfig, h: HostEnv)
    ensures
        ({
            let a = sandbox_args(c, h);
            &&& exists|i: int|
                0 <= i && i + 3 <= a.len() && #[trigger] a.subrange(i, i + 3) == setenv(
                    "HOME"@,
                    host_home(h),
                )
            &&& exists|i: int|
                0 <= i && i + 3 <= a.len() && #[trigger] a.subrange(i, i + 3) == setenv(
                    "USER"@,
                    env_or(h.user, "nobody"@),
                )
            &&& exists|i: int|
                0 <= i && i + 3 <= a.len() && #[trigger] a.subrange(i, i + 3) == setenv(
                    "PATH"@,
                    env_or(h.path, "/usr/bin:/bin"@),
                )
            &&& exists|i: int|
                0 <= i && i + 3 <= a.len() && #[trigger] a.subrange(i, i + 3) == setenv(
                    "TERM"@,
                    env_or(h.term, "xterm"@),
                )
            &&& exists|i: int|
                0 <= i && i + 3 <= a.len() && #[trigger] a.subrange(i, i + 3) == setenv(
                    "LANG"@,
                    env_or(h.lang, "C.UTF-8"@),
                )
            &&& exists|i: int|
                0 <= i && i + 3 <= a.len() && #[trigger] a.subrange(i, i + 3) == setenv(
                    "SHELL"@,
                    env_or(h.shell, "/bin/sh"@),
                )
        }),
{
    lemma_args_parts(c, h);
    let a = sandbox_args(c, h);
    let ns = namespace_args(c.no_net);
    let env = env_args(h, c.env_passthrough@);
    let rest = system_args(h) + home_args(h) + binds_args("--ro-bind"@, string_views(c.ro_binds@))
        + binds_args("--bind"@, string_views(c.rw_binds@)) + tail_args(c);
    assert(a =~= ns + env + rest);
    let k = ns.len() as int;
    let s1 = setenv("HOME"@, host_home(h));
    let s2 = setenv("USER"@, env_or(h.user, "nobody"@));
    let s3 = setenv("PATH"@, env_or(h.path, "/usr/bin:/bin"@));
    let s4 = setenv("TERM"@, env_or(h.term, "xterm"@));
    let s5 = setenv("LANG"@, env_or(h.lang, "C.UTF-8"@));
    let s6 = setenv("SHELL"@, env_or(h.shell, "/bin/sh"@));
    assert(env.len() >= 19);
    assert(env.subrange(1, 4) =~= s1);
    assert(env.subrange(4, 7) =~= s2);
    assert(env.subrange(7, 10) =~= s3);
    assert(env.subrange(10, 13) =~= s4);
    assert(env.subrange(13, 16) =~= s5);
    assert(env.subrange(16, 19) =~= s6);
    lemma_window_in(ns, env, rest, 1, 3);
    lemma_window_in(ns, env, rest, 4, 3);
    lemma_window_in(ns, env, rest, 7, 3);
    lemma_window_in(ns, env, rest, 10, 3);
    lemma_window_in(ns, env, rest, 13, 3);
    lemma_window_in(ns, env, rest, 16, 3);
    assert(a.subrange(k + 1, k + 4) == s1);
    assert(a.subrange(k + 4, k + 7) == s2);
    assert(a.subrange(k + 7, k + 10) == s3);
    assert(a.subrange(k + 10, k + 13) == s4);
    assert(a.subrange(k + 13, k + 16) == s5);
    assert(a.subrange(k + 16, k + 19) == s6);
}

proof fn lemma_window_in(pre: Seq<Seq<char>>, mid: Seq<Seq<char>>, post: Seq<Seq<char>>, i: int, k: int)
    requires
        0 <= i,
        0 <= k,
        i + k <= mid.len(),
    ensures
        (pre + mid + post).subrange(pre.len() + i, pre.len() + i + k) == mid.subrange(i, i + k),
{
    assert((pre + mid + post).subrange(pre.len() + i, pre.len() + i + k) =~= mid.subrange(
        i,
        i + k,
    ));
}

/// Every variable passed through is set to its value.
pub proof fn law_passthrough_set(c: SandboxConfig, h: HostEnv, j: int)
    requires
        0 <= j < c.env_passthrough@.len(),
    ensures
        exists|i: int|
            0 <= i && i + 3 <= sandbox_args(c, h).len() && #[trigger] sandbox_args(c, h).subrange(i, i + 3)
                == setenv(c.env_passthrough@[j].0@, c.env_passthrough@[j].1@),
{
    lemma_args_parts(c, h);
    let vars = c.env_passthrough@;
    let a = sandbox_args(c, h);
    let ns = namespace_args(c.no_net);
    let fixed = seq!["--clearenv"@] + setenv("HOME"@, host_home(h)) + setenv(
        "USER"@,
        env_or(h.user, "nobody"@),
    ) + setenv("PATH"@, env_or(h.path, "/usr/bin:/bin"@)) + setenv(
        "TERM"@,
        env_or(h.term, "xterm"@),
    ) + setenv("LANG"@, env_or(h.lang, "C.UTF-8"@)) + setenv("SHELL"@, env_or(h.shell, "/bin/sh"@));
    let pt = passthrough_args(vars);
    let rest = system_args(h) + home_args(h) + binds_args("--ro-bind"@, string_views(c.ro_binds@))
        + binds_args("--bind"@, string_views(c.rw_binds@)) + tail_args(c);
    assert(a =~= ns + fixed + pt + rest);
    lemma_passthrough_window(vars, j);
    let off = ns.len() + fixed.len();
    assert(a.subrange(off + 3 * j, off + 3 * j + 3) =~= pt.subrange(3 * j, 3 * j + 3));
}

/// Every extra read-only bind is mounted read-only, and every extra
/// writable bind is mounted writable.
pub proof fn law_user_binds_mounted(c: SandboxConfig, h: HostEnv)
    ensures
        forall|j: int|
            #![trigger c.ro_binds@[j]]
            0 <= j < c.ro_binds@.len() ==> exists|i: int|
                0 <= i < sandbox_args(c, h).len() - 1 && #[trigger] sandbox_args(c, h)[i] == "--ro-bind"@
                    && sandbox_args(c, h)[i + 1] == c.ro_binds@[j]@,
        forall|j: int|
            #![trigger c.rw_binds@[j]]
            0 <= j < c.rw_binds@.len() ==> exists|i: int|
                0 <= i < sandbox_args(c, h).len() - 1 && #[trigger] sandbox_args(c, h)[i] == "--bind"@
                    && sandbox_args(c, h)[i + 1] == c.rw_binds@[j]@,
{
    lemma_args_parts(c, h);
    let a = sandbox_args(c, h);
    let ro = string_views(c.ro_binds@);
    let rw = string_views(c.rw_binds@);
    let pre = namespace_args(c.no_net) + env_args(h, c.env_passthrough@) + system_args(h)
        + home_args(h);
    let b1 = binds_args("--ro-bind"@, ro);
    let b2 = binds_args("--bind"@, rw);
    assert(a =~= pre + b1 + b2 + tail_args(c));
    lemma_binds_len("--ro-bind"@, ro);
    assert forall|j: int| #![trigger c.ro_binds@[j]] 0 <= j < c.ro_binds@.len() implies exists|i: int|
        0 <= i < a.len() - 1 && #[trigger] a[i] == "--ro-bind"@ && a[i + 1] == c.ro_binds@[j]@ by {
        lemma_binds_window("--ro-bind"@, ro, j);
        let i = pre.len() + 3 * j;
        assert(a[i] == b1[3 * j]);
        assert(a[i + 1] == b1[3 * j + 1]);
    };
    assert forall|j: int| #![trigger c.rw_binds@[j]] 0 <= j < c.rw_binds@.len() implies exists|i: int|
        0 <= i < a.len() - 1 && #[trigger] a[i] == "--bind"@ && a[i + 1] == c.rw_binds@[j]@ by {
        lemma_binds_window("--bind"@, rw, j);
        let i = pre.len() + b1.len() + 3 * j;
        assert(a[i] == b2[3 * j]);
        assert(a[i + 1] == b2[3 * j + 1]);
    };
}

/// The repository is mounted through the overlay: `--overlay-src repo`
/// then `--overlay upper work repo`.
pub proof fn law_repo_overlay_mounted(c: SandboxConfig, h: HostEnv)
    ensures
        exists|i: int|
            0 <= i && i + 6 <= sandbox_args(c, h).len() && #[trigger] sandbox_args(c, h).subrange(i, i + 6)
                == seq![
                "--overlay-src"@,
                c.repo_root@,
                "--overlay"@,
                c.upperdir@,
                c.workdir@,
                c.repo_root@,
            ],
{
    lemma_args_parts(c, h);
    let a = sandbox_args(c, h);
    let pre = namespace_args(c.no_net) + middle_args(c, h);
    assert(a =~= pre + tail_args(c));
    let i = pre.len() as int;
    assert(a.subrange(i, i + 6) =~= seq![
        "--overlay-src"@,
        c.repo_root@,
        "--overlay"@,
        c.upperdir@,
        c.workdir@,
        c.repo_root@,
    ]);
}

} // verus!
