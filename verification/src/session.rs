//! The decisions around a sandbox session: where the overlay lives, what an
//! agent profile mounts and passes through, and what the user's answer to the
//! closing prompt means.
use vstd::prelude::*;
use crate::overlay::{overlay_dirs, OverlayDirs};
use crate::paths::{char_code, chars_of, join_spec, push_string, push_text, string_views};

verus! {

/// What to do with the overlay once the sandboxed command has finished.
#[derive(Clone, Copy, PartialEq, Eq, Debug, Structural)]
pub enum Action {
    Apply,
    Discard,
    Keep,
}

/// `char::is_whitespace`: the characters with Unicode's White_Space property.
pub open spec fn is_white(c: char) -> bool {
    ||| ('\u{9}' <= c && c <= '\u{d}')
    ||| c == ' '
    ||| c == '\u{85}'
    ||| c == '\u{a0}'
    ||| c == '\u{1680}'
    ||| ('\u{2000}' <= c && c <= '\u{200a}')
    ||| c == '\u{2028}'
    ||| c == '\u{2029}'
    ||| c == '\u{202f}'
    ||| c == '\u{205f}'
    ||| c == '\u{3000}'
}

/// `s` without its leading whitespace.
pub open spec fn trim_start(s: Seq<char>) -> Seq<char>
    decreases s.len(),
{
    if s.len() > 0 && is_white(s[0]) {
        trim_start(s.drop_first())
    } else {
        s
    }
}

/// `s` without its trailing whitespace.
pub open spec fn trim_end(s: Seq<char>) -> Seq<char>
    decreases s.len(),
{
    if s.len() > 0 && is_white(s.last()) {
        trim_end(s.drop_last())
    } else {
        s
    }
}

/// `str::trim`.
pub open spec fn trim(s: Seq<char>) -> Seq<char> {
    trim_end(trim_start(s))
}

/// A character in lower case, for the ASCII letters.
pub open spec fn ascii_lower(c: char) -> char {
    if 'A' <= c && c <= 'Z' {
        ((c as int) + 32) as char
    } else {
        c
    }
}

/// `s` spells the lower-case word `word` in any mix of cases.
pub open spec fn spells(s: Seq<char>, word: Seq<char>) -> bool {
    s.len() == word.len() && forall|i: int| 0 <= i < s.len() ==> ascii_lower(s[i]) == word[i]
}

/// The user's answer, trimmed and in any case: `a` or `apply` applies,
/// `d` or `discard` discards, anything else keeps. With `--keep`, or when
/// no answer could be read, the overlay is kept.
pub open spec fn action_spec(keep_flag: bool, answer: Option<Seq<char>>) -> Action {
    if keep_flag {
        Action::Keep
    } else {
        match answer {
            None => Action::Keep,
            Some(s) => {
                let t = trim(s);
                if spells(t, "a"@) || spells(t, "apply"@) {
                    Action::Apply
                } else if spells(t, "d"@) || spells(t, "discard"@) {
                    Action::Discard
                } else {
                    Action::Keep
                }
            },
        }
    }
}

/// `t` is the lower-case ASCII word `w` written in any mix of cases: each
/// character is the word's letter or that letter in upper case.
pub open spec fn caseless(t: Seq<char>, w: Seq<char>) -> bool {
    &&& t.len() == w.len()
    &&& forall|i: int|
        0 <= i < t.len() ==> #[trigger] t[i] == w[i] || ('a' <= w[i] && w[i] <= 'z' && (t[i] as int)
            + 32 == (w[i] as int))
}

/// Only whitespace.
pub open spec fn all_white(s: Seq<char>) -> bool {
    forall|i: int| 0 <= i < s.len() ==> is_white(#[trigger] s[i])
}

proof fn lemma_trim_start_white(pre: Seq<char>, x: Seq<char>)
    requires
        all_white(pre),
    ensures
        trim_start(pre + x) == trim_start(x),
    decreases pre.len(),
{
    if pre.len() > 0 {
        assert((pre + x)[0] == pre[0]);
        assert((pre + x).drop_first() =~= pre.drop_first() + x);
        lemma_trim_start_white(pre.drop_first(), x);
    } else {
        assert(pre + x =~= x);
    }
}

proof fn lemma_trim_end_white(x: Seq<char>, post: Seq<char>)
    requires
        all_white(post),
    ensures
        trim_end(x + post) == trim_end(x),
    decreases post.len(),
{
    if post.len() > 0 {
        assert((x + post).last() == post.last());
        assert((x + post).drop_last() =~= x + post.drop_last());
        lemma_trim_end_white(x, post.drop_last());
    } else {
        assert(x + post =~= x);
    }
}

proof fn lemma_trim_padded(pre: Seq<char>, t: Seq<char>, post: Seq<char>)
    requires
        all_white(pre),
        all_white(post),
        t.len() == 0 || (!is_white(t[0]) && !is_white(t.last())),
    ensures
        trim(pre + t + post) == t,
{
    assert(pre + t + post =~= pre + (t + post));
    lemma_trim_start_white(pre, t + post);
    if t.len() > 0 {
        assert((t + post)[0] == t[0]);
        assert(trim_start(t + post) == t + post);
        lemma_trim_end_white(t, post);
    } else {
        assert(t + post =~= post);
        assert(all_white(post));
        lemma_trim_start_white(post, Seq::<char>::empty());
        assert(post + Seq::<char>::empty() =~= post);
        assert(trim_start(Seq::<char>::empty()) == Seq::<char>::empty());
    }
}

proof fn lemma_spells_caseless(t: Seq<char>, w: Seq<char>)
    requires
        forall|i: int| 0 <= i < w.len() ==> 'a' <= #[trigger] w[i] && w[i] <= 'z',
    ensures
        spells(t, w) == caseless(t, w),
{
    if t.len() == w.len() {
        assert forall|i: int| 0 <= i < t.len() implies (ascii_lower(t[i]) == w[i]) == (#[trigger] t[i]
            == w[i] || ('a' <= w[i] && w[i] <= 'z' && (t[i] as int) + 32 == (w[i] as int))) by {
            let c = t[i];
            if 'A' <= c && c <= 'Z' {
                assert((ascii_lower(c) as int == w[i] as int) == (ascii_lower(c) == w[i]));
                assert(c != w[i]);
            }
        }
    }
}

/// The answer to the prompt, between any whitespace, is read in any case:
/// `a` or `apply` applies, `d` or `discard` discards, in upper, lower or
/// mixed case; any other answer keeps the overlay.
pub proof fn law_answer_read_in_any_case(pre: Seq<char>, t: Seq<char>, post: Seq<char>)
    requires
        all_white(pre),
        all_white(post),
        t.len() == 0 || (!is_white(t[0]) && !is_white(t.last())),
    ensures
        action_spec(false, Some(pre + t + post)) == if caseless(t, seq!['a']) || caseless(
            t,
            seq!['a', 'p', 'p', 'l', 'y'],
        ) {
            Action::Apply
        } else if caseless(t, seq!['d']) || caseless(t, seq!['d', 'i', 's', 'c', 'a', 'r', 'd']) {
            Action::Discard
        } else {
            Action::Keep
        },
{
    reveal_strlit("a");
    reveal_strlit("apply");
    reveal_strlit("d");
    reveal_strlit("discard");
    lemma_trim_padded(pre, t, post);
    assert("a"@ =~= seq!['a']);
    assert("apply"@ =~= seq!['a', 'p', 'p', 'l', 'y']);
    assert("d"@ =~= seq!['d']);
    assert("discard"@ =~= seq!['d', 'i', 's', 'c', 'a', 'r', 'd']);
    lemma_spells_caseless(t, seq!['a']);
    lemma_spells_caseless(t, seq!['a', 'p', 'p', 'l', 'y']);
    lemma_spells_caseless(t, seq!['d']);
    lemma_spells_caseless(t, seq!['d', 'i', 's', 'c', 'a', 'r', 'd']);
}

fn is_white_exec(c: char) -> (r: bool)
    ensures
        r == is_white(c),
{
    ('\u{9}' <= c && c <= '\u{d}') || c == ' ' || c == '\u{85}' || c == '\u{a0}' || c == '\u{1680}'
        || ('\u{2000}' <= c && c <= '\u{200a}') || c == '\u{2028}' || c == '\u{2029}' || c
        == '\u{202f}' || c == '\u{205f}' || c == '\u{3000}'
}

/// The bounds of `cs` without its leading and trailing whitespace.
fn trim_bounds(cs: &Vec<char>) -> (r: (usize, usize))
    ensures
        r.0 <= r.1 <= cs.len(),
        trim(cs@) == cs@.subrange(r.0 as int, r.1 as int),
{
    let mut a: usize = 0;
    assert(cs@.subrange(0, cs@.len() as int) =~= cs@);
    while a < cs.len() && is_white_exec(cs[a])
        invariant
            a <= cs.len(),
            trim_start(cs@) == trim_start(cs@.subrange(a as int, cs@.len() as int)),
        decreases cs.len() - a,
    {
        assert(cs@.subrange(a as int, cs@.len() as int).drop_first() =~= cs@.subrange(
            a + 1,
            cs@.len() as int,
        ));
        a = a + 1;
    }
    let ghost t = cs@.subrange(a as int, cs@.len() as int);
    assert(trim_start(cs@) == t);
    let mut b: usize = cs.len();
    assert(t =~= cs@.subrange(a as int, b as int));
    while b > a && is_white_exec(cs[b - 1])
        invariant
            a <= b <= cs.len(),
            t == cs@.subrange(a as int, cs@.len() as int),
            trim_end(t) == trim_end(cs@.subrange(a as int, b as int)),
        decreases b,
    {
        assert(cs@.subrange(a as int, b as int).drop_last() =~= cs@.subrange(a as int, b - 1));
        b = b - 1;
    }
    (a, b)
}

/// Whether `cs[a..b]` spells the lower-case ASCII word `word`.
fn spells_exec(cs: &Vec<char>, a: usize, b: usize, word: &str) -> (r: bool)
    requires
        a <= b <= cs.len(),
    ensures
        r == spells(cs@.subrange(a as int, b as int), word@),
{
    let w = chars_of(word);
    let ghost s = cs@.subrange(a as int, b as int);
    if b - a != w.len() {
        return false;
    }
    let mut i: usize = 0;
    while i < w.len()
        invariant
            b - a == w.len(),
            a <= b <= cs.len(),
            s == cs@.subrange(a as int, b as int),
            w@ == word@,
            i <= w.len(),
            forall|j: int| 0 <= j < i ==> ascii_lower(s[j]) == w@[j],
        decreases w.len() - i,
    {
        let c = cs[a + i];
        let x = w[i];
        assert(s[i as int] == c);
        let same = if 'A' <= c && c <= 'Z' {
            char_code(c) + 32 == char_code(x)
        } else {
            c == x
        };
        proof {
            if 'A' <= c && c <= 'Z' {
                assert((ascii_lower(c) as int == x as int) == (ascii_lower(c) == x));
            }
        }
        if !same {
            return false;
        }
        i = i + 1;
    }
    true
}

/// Decide what to do with the overlay, from `--keep` and the user's answer
/// to the prompt (`None` when it could not be read).
pub fn choose_action(keep_flag: bool, answer: Option<&str>) -> (r: Action)
    ensures
        r == action_spec(
            keep_flag,
            match answer {
                Some(s) => Some(s@),
                None => None,
            },
        ),
{
    if keep_flag {
        return Action::Keep;
    }
    let s = match answer {
        None => return Action::Keep,
        Some(s) => s,
    };
    let cs = chars_of(s);
    let (a, b) = trim_bounds(&cs);
    if spells_exec(&cs, a, b, "a") || spells_exec(&cs, a, b, "apply") {
        Action::Apply
    } else if spells_exec(&cs, a, b, "d") || spells_exec(&cs, a, b, "discard") {
        Action::Discard
    } else {
        Action::Keep
    }
}

// ---------------------------------------------------------------------------
// Where the overlay lives.
// ---------------------------------------------------------------------------

/// Why the overlay layout was refused.
#[derive(Clone, Copy, PartialEq, Eq, Debug, Structural)]
pub enum LayoutError {
    /// `--output-dir` and `--work-dir` must be used together.
    OutputAndWorkDirApart,
}

/// The overlay's directories: the explicit upper and work directories when
/// both are given, the layout under `base` when neither is, refused when
/// only one is.
pub fn overlay_layout(base: &str, output_dir: Option<String>, work_dir: Option<String>) -> (r: Result<
    OverlayDirs,
    LayoutError,
>)
    ensures
        match (output_dir, work_dir) {
            (Some(out), Some(work)) => r matches Ok(d) && d.upperdir@ == out@ && d.workdir@
                == work@,
            (None, None) => r matches Ok(d) && d.upperdir@ == join_spec(base@, "upper"@)
                && d.workdir@ == join_spec(base@, "work"@),
            _ => r == Err::<OverlayDirs, LayoutError>(LayoutError::OutputAndWorkDirApart),
        },
{
    match (output_dir, work_dir) {
        (Some(out), Some(work)) => Ok(OverlayDirs { upperdir: out, workdir: work }),
        (None, None) => Ok(overlay_dirs(base)),
        _ => Err(LayoutError::OutputAndWorkDirApart),
    }
}

// ---------------------------------------------------------------------------
// Mounts and variables of a coding agent's profile.
// ---------------------------------------------------------------------------

/// Where an agent named `tool` keeps its files under `home`: a configuration
/// directory `home/.config/tool`, a state directory `home/.tool` and an
/// onboarding file `home/.tool.json`.
pub open spec fn tool_config_dir(home: Seq<char>, tool: Seq<char>) -> Seq<char> {
    home + "/.config/"@ + tool
}

pub open spec fn tool_state_dir(home: Seq<char>, tool: Seq<char>) -> Seq<char> {
    home + "/."@ + tool
}

pub open spec fn tool_state_file(home: Seq<char>, tool: Seq<char>) -> Seq<char> {
    home + "/."@ + tool + ".json"@
}

/// The paths an agent profile mounts writable: its configuration directory
/// if present, its state directory always (created if missing, so the mount
/// has a target), and its onboarding file if present.
pub open spec fn tool_binds_spec(
    home: Seq<char>,
    tool: Seq<char>,
    config_exists: bool,
    json_exists: bool,
) -> Seq<Seq<char>> {
    (if config_exists {
        seq![tool_config_dir(home, tool)]
    } else {
        Seq::empty()
    }) + seq![tool_state_dir(home, tool)] + (if json_exists {
        seq![tool_state_file(home, tool)]
    } else {
        Seq::empty()
    })
}

fn concat3(a: &str, b: &str, c: &str) -> (r: String)
    ensures
        r@ == a@ + b@ + c@,
{
    let mut r = a.to_owned();
    r.append(b);
    r.append(c);
    r
}

/// The configuration directory of the agent `tool` under `home`.
pub fn tool_config_path(home: &str, tool: &str) -> (r: String)
    ensures
        r@ == tool_config_dir(home@, tool@),
{
    concat3(home, "/.config/", tool)
}

/// The state directory of the agent `tool` under `home`.
pub fn tool_state_path(home: &str, tool: &str) -> (r: String)
    ensures
        r@ == tool_state_dir(home@, tool@),
{
    concat3(home, "/.", tool)
}

/// The onboarding file of the agent `tool` under `home`.
pub fn tool_state_file_path(home: &str, tool: &str) -> (r: String)
    ensures
        r@ == tool_state_file(home@, tool@),
{
    let mut r = tool_state_path(home, tool);
    r.append(".json");
    r
}

/// The bind paths of the agent profile `tool`, given whether its
/// configuration directory and its onboarding file exist.
pub fn tool_binds(home: &str, tool: &str, config_exists: bool, json_exists: bool) -> (r: Vec<
    String,
>)
    ensures
        string_views(r@) == tool_binds_spec(home@, tool@, config_exists, json_exists),
{
    let mut binds: Vec<String> = Vec::new();
    if config_exists {
        push_string(&mut binds, tool_config_path(home, tool));
    }
    push_string(&mut binds, tool_state_path(home, tool));
    if json_exists {
        push_string(&mut binds, tool_state_file_path(home, tool));
    }
    assert(string_views(binds@) =~= tool_binds_spec(home@, tool@, config_exists, json_exists));
    binds
}

/// The environment variables through which the agent takes its credentials
/// and its configuration directory.
pub open spec fn agent_env_names() -> Seq<Seq<char>> {
    seq!["ANTHROPIC_API_KEY"@, "CLAUDE_CODE_API_KEY"@, "CLAUDE_CODE_OAUTH_TOKEN"@, "CLAUDE_CONFIG_DIR"@]
}

/// The variables passed through, when set, with the agent profile.
pub fn agent_env_vars() -> (r: Vec<String>)
    ensures
        string_views(r@) == agent_env_names(),
{
    let mut r: Vec<String> = Vec::new();
    push_text(&mut r, "ANTHROPIC_API_KEY");
    push_text(&mut r, "CLAUDE_CODE_API_KEY");
    push_text(&mut r, "CLAUDE_CODE_OAUTH_TOKEN");
    push_text(&mut r, "CLAUDE_CONFIG_DIR");
    assert(string_views(r@) =~= agent_env_names());
    r
}

/// The pairs `(name, value)` of the variables that are set, in order.
pub open spec fn present_vars_spec(names: Seq<String>, values: Seq<Option<String>>) -> Seq<
    (Seq<char>, Seq<char>),
>
    decreases names.len(),
{
    if names.len() == 0 || values.len() == 0 {
        Seq::empty()
    } else {
        let rest = present_vars_spec(names.drop_last(), values.drop_last());
        match values.last() {
            Some(v) => rest.push((names.last()@, v@)),
            None => rest,
        }
    }
}

pub open spec fn pair_views(v: Seq<(String, String)>) -> Seq<(Seq<char>, Seq<char>)> {
    v.map_values(|p: (String, String)| (p.0@, p.1@))
}

/// The variables among `names` that have a value (`values[i]` is the value
/// of `names[i]`, `None` when unset), with their values.
pub fn present_vars(names: &Vec<String>, values: &Vec<Option<String>>) -> (r: Vec<(String, String)>)
    requires
        names.len() == values.len(),
    ensures
        pair_views(r@) == present_vars_spec(names@, values@),
{
    let mut r: Vec<(String, String)> = Vec::new();
    let mut i: usize = 0;
    while i < names.len()
        invariant
            names.len() == values.len(),
            i <= names.len(),
            pair_views(r@) == present_vars_spec(
                names@.subrange(0, i as int),
                values@.subrange(0, i as int),
            ),
        decreases names.len() - i,
    {
        assert(names@.subrange(0, i + 1).drop_last() =~= names@.subrange(0, i as int));
        assert(values@.subrange(0, i + 1).drop_last() =~= values@.subrange(0, i as int));
        let ghost before = r@;
        match &values[i] {
            Some(v) => {
                r.push((names[i].clone(), v.clone()));
                assert(pair_views(r@) =~= pair_views(before).push((names@[i as int]@, v@)));
            },
            None => {},
        }
        i = i + 1;
    }
    assert(names@.subrange(0, names.len() as int) =~= names@);
    assert(values@.subrange(0, values.len() as int) =~= values@);
    r
}

/// A name with the value it is set to.
pub open spec fn pair_of(name: String, value: Option<String>) -> (Seq<char>, Seq<char>) {
    (name@, value->0@)
}

/// `p` is one of the variables that are set, with its value.
pub open spec fn is_set_pair(
    names: Seq<String>,
    values: Seq<Option<String>>,
    p: (Seq<char>, Seq<char>),
) -> bool {
    exists|i: int| 0 <= i < values.len() && (#[trigger] values[i]) is Some && p == pair_of(names[i], values[i])
}

/// The number of variables that are set.
pub open spec fn set_count(values: Seq<Option<String>>) -> nat {
    values.filter(|o: Option<String>| o is Some).len()
}

/// Every variable that is set is passed through with its value; nothing else
/// is: each pair passed is a name with the value it is set to, and there are
/// as many pairs as variables set.
pub proof fn law_present_vars_exactly_the_set_ones(names: Seq<String>, values: Seq<Option<String>>)
    requires
        names.len() == values.len(),
    ensures
        forall|i: int|
            0 <= i < values.len() && (#[trigger] values[i]) is Some ==> present_vars_spec(
                names,
                values,
            ).contains((names[i]@, values[i]->0@)),
        forall|j: int|
            0 <= j < present_vars_spec(names, values).len() ==> is_set_pair(
                names,
                values,
                #[trigger] present_vars_spec(names, values)[j],
            ),
        present_vars_spec(names, values).len() == set_count(values),
    decreases values.len(),
{
    broadcast use Seq::lemma_filter_push;

    let r = present_vars_spec(names, values);
    if values.len() == 0 {
        assert(r.len() == 0);
        assert(values.filter(|o: Option<String>| o is Some) =~= Seq::<Option<String>>::empty()) by {
            reveal(Seq::filter);
        }
    } else {
        let n2 = names.drop_last();
        let v2 = values.drop_last();
        law_present_vars_exactly_the_set_ones(n2, v2);
        let rest = present_vars_spec(n2, v2);
        assert(v2.push(values.last()) =~= values);
        let last = values.len() - 1;
        assert(values[last] == values.last());
        assert forall|i: int|
            0 <= i < values.len() && (#[trigger] values[i]) is Some implies r.contains(
            (names[i]@, values[i]->0@),
        ) by {
            if i < last {
                assert(v2[i] == values[i] && n2[i] == names[i]);
                let j = choose|j: int| 0 <= j < rest.len() && rest[j] == (n2[i]@, v2[i]->0@);
                assert(r[j] == rest[j]);
            } else {
                assert(r[rest.len() as int] == (names.last()@, values.last()->0@));
            }
        }
    }
    lemma_present_vars_sound(names, values);
}

proof fn lemma_present_vars_sound(names: Seq<String>, values: Seq<Option<String>>)
    requires
        names.len() == values.len(),
    ensures
        forall|j: int|
            0 <= j < present_vars_spec(names, values).len() ==> is_set_pair(
                names,
                values,
                #[trigger] present_vars_spec(names, values)[j],
            ),
    decreases values.len(),
{
    if values.len() == 0 {
        assert(present_vars_spec(names, values).len() == 0);
    } else {
        let n2 = names.drop_last();
        let v2 = values.drop_last();
        lemma_present_vars_sound(n2, v2);
        let rest = present_vars_spec(n2, v2);
        let r = present_vars_spec(names, values);
        let last = values.len() - 1;
        assert forall|j: int| 0 <= j < r.len() implies is_set_pair(names, values, #[trigger] r[j]) by {
            if j < rest.len() {
                assert(r[j] == rest[j]);
                assert(is_set_pair(n2, v2, rest[j]));
                let i = choose|i: int|
                    0 <= i < v2.len() && (#[trigger] v2[i]) is Some && rest[j] == pair_of(
                        n2[i],
                        v2[i],
                    );
                assert(v2[i] == values[i] && n2[i] == names[i]);
                assert(r[j] == pair_of(names[i], values[i]));
            } else {
                assert(values.last() is Some);
                assert(names[last] == names.last());
                assert(values[last] == values.last());
                assert(r[j] == pair_of(names[last], values[last]));
            }
        }
    }
}

/// The paths an agent profile mounts: the state directory `home/.tool`
/// always; the configuration directory `home/.config/tool` exactly when it
/// exists; the onboarding file `home/.tool.json` exactly when it exists;
/// nothing else, configuration first and onboarding file last.
pub proof fn law_tool_binds_follow_existence(
    home: Seq<char>,
    tool: Seq<char>,
    config_exists: bool,
    json_exists: bool,
)
    ensures
        ({
            let r = tool_binds_spec(home, tool, config_exists, json_exists);
            let config = home + "/.config/"@ + tool;
            let state = home + "/."@ + tool;
            let file = home + "/."@ + tool + ".json"@;
            &&& r.contains(state)
            &&& r.contains(config) <==> config_exists
            &&& r.contains(file) <==> json_exists
            &&& r.len() == 1 + (if config_exists { 1int } else { 0 }) + (if json_exists {
                1int
            } else {
                0
            })
            &&& config_exists ==> r[0] == config
            &&& json_exists ==> r.last() == file
        }),
{
    reveal_strlit("/.config/");
    reveal_strlit("/.");
    reveal_strlit(".json");
    let r = tool_binds_spec(home, tool, config_exists, json_exists);
    let config = home + "/.config/"@ + tool;
    let state = home + "/."@ + tool;
    let file = home + "/."@ + tool + ".json"@;
    // The three paths differ: by length, or by the character after `home/.`.
    assert(config.len() == state.len() + 7);
    assert(file.len() == state.len() + 5);
    assert(config != file) by {
        if config == file {
            assert(config.len() != file.len());
        }
    }
    assert(config != state);
    assert(file != state);
    if config_exists {
        assert(r[0] == config);
    }
    if config_exists && json_exists {
        assert(r =~= seq![config, state, file]);
        assert(r[0] == config && r[1] == state && r[2] == file);
    } else if config_exists {
        assert(r =~= seq![config, state]);
        assert(r[0] == config && r[1] == state);
        assert(!r.contains(file));
    } else if json_exists {
        assert(r =~= seq![state, file]);
        assert(r[0] == state && r[1] == file);
        assert(!r.contains(config));
    } else {
        assert(r =~= seq![state]);
        assert(r[0] == state);
        assert(!r.contains(config));
        assert(!r.contains(file));
    }
}

/// The exit code of the session: the command's, or 1 when it has none (it
/// was killed by a signal).
pub fn exit_code(code: Option<i32>) -> (r: i32)
    ensures
        r == exit_code_spec(code),
{
    match code {
        Some(c) => c,
        None => 1,
    }
}

// ---------------------------------------------------------------------------
// The course of a session.
// ---------------------------------------------------------------------------

/// Where a session stands.
#[derive(Clone, Copy, PartialEq, Eq, Debug, Structural)]
pub enum Stage {
    /// The sandboxed command is running.
    Running,
    /// The command has ended with `code`; the overlay is being read.
    Inspecting { code: i32 },
    /// The changes were shown; the user's decision is awaited.
    Deciding { code: i32 },
    /// Nothing is left to do: the session exits with `code`.
    Done { code: i32 },
}

/// What the outside world reports to the session.
#[derive(Clone, Copy, PartialEq, Eq, Debug)]
pub enum Event {
    /// The command ended, with its exit code (`None` when a signal ended it).
    Exited(Option<i32>),
    /// The overlay was read: whether it holds changes.
    Inspected { has_changes: bool },
    /// The user's decision about the changes.
    Decided(Action),
}

/// What the session asks the outside world to do next.
#[derive(Clone, Copy, PartialEq, Eq, Debug, Structural)]
pub enum Step {
    /// Read the changes the overlay holds.
    Inspect,
    /// Say that there is nothing to review.
    ReportNoChanges,
    /// Show the changes and ask what to do with them.
    ShowChanges,
    /// Carry out the decision.
    Carry(Action),
    /// Nothing: the event does not belong to this stage.
    Ignore,
}

/// The exit code a stage has settled on, if any.
pub open spec fn stage_code(s: Stage) -> Option<i32> {
    match s {
        Stage::Running => None,
        Stage::Inspecting { code } => Some(code),
        Stage::Deciding { code } => Some(code),
        Stage::Done { code } => Some(code),
    }
}

pub open spec fn exit_code_spec(code: Option<i32>) -> i32 {
    match code {
        Some(c) => c,
        None => 1,
    }
}

/// A session runs the command, reads the overlay once the command has
/// ended, and either reports that nothing changed or shows the changes and
/// carries out the user's decision; it exits with the command's code.
pub open spec fn next_spec(s: Stage, e: Event) -> (Stage, Step) {
    match (s, e) {
        (Stage::Running, Event::Exited(st)) => (
            Stage::Inspecting { code: exit_code_spec(st) },
            Step::Inspect,
        ),
        (Stage::Inspecting { code }, Event::Inspected { has_changes }) => if has_changes {
            (Stage::Deciding { code }, Step::ShowChanges)
        } else {
            (Stage::Done { code }, Step::ReportNoChanges)
        },
        (Stage::Deciding { code }, Event::Decided(a)) => (Stage::Done { code }, Step::Carry(a)),
        _ => (s, Step::Ignore),
    }
}

/// The session's next stage and step after an event.
pub fn session_next(s: Stage, e: Event) -> (r: (Stage, Step))
    ensures
        r == next_spec(s, e),
{
    match (s, e) {
        (Stage::Running, Event::Exited(st)) => (
            Stage::Inspecting { code: exit_code(st) },
            Step::Inspect,
        ),
        (Stage::Inspecting { code }, Event::Inspected { has_changes }) => {
            if has_changes {
                (Stage::Deciding { code }, Step::ShowChanges)
            } else {
                (Stage::Done { code }, Step::ReportNoChanges)
            }
        },
        (Stage::Deciding { code }, Event::Decided(a)) => (Stage::Done { code }, Step::Carry(a)),
        _ => (s, Step::Ignore),
    }
}

/// The stage a session reaches from `s` through the events `es`, in order.
pub open spec fn run_events(s: Stage, es: Seq<Event>) -> Stage
    decreases es.len(),
{
    if es.len() == 0 {
        s
    } else {
        run_events(next_spec(s, es[0]).0, es.drop_first())
    }
}

proof fn lemma_code_settled(s: Stage, es: Seq<Event>)
    requires
        stage_code(s) is Some,
    ensures
        stage_code(run_events(s, es)) == stage_code(s),
    decreases es.len(),
{
    if es.len() > 0 {
        lemma_code_settled(next_spec(s, es[0]).0, es.drop_first());
    }
}

/// The session exits with the command's exit code (1 when a signal ended
/// it), whatever is found in the overlay and whatever the user decides.
pub proof fn law_session_exits_with_command_code(status: Option<i32>, es: Seq<Event>)
    ensures
        stage_code(run_events(Stage::Running, seq![Event::Exited(status)] + es)) == Some(
            exit_code_spec(status),
        ),
{
    let all = seq![Event::Exited(status)] + es;
    assert(all[0] == Event::Exited(status));
    assert(all.drop_first() =~= es);
    lemma_code_settled(Stage::Inspecting { code: exit_code_spec(status) }, es);
}

/// Changes are carried out only after they were shown and the user decided,
/// and exactly as decided; nothing is carried out when nothing changed.
pub proof fn law_changes_carried_only_when_decided(s: Stage, e: Event, a: Action)
    ensures
        next_spec(s, e).1 == Step::Carry(a) <==> (s is Deciding && e == Event::Decided(a)),
        (s is Inspecting && e == Event::Inspected { has_changes: false }) ==> next_spec(s, e)
            == (Stage::Done { code: s->Inspecting_code }, Step::ReportNoChanges),
{
}

/// The session's exit code is the command's own when it exited, and 1 when a
/// signal ended it.
pub proof fn law_exit_code_is_commands(code: i32)
    ensures
        exit_code_spec(Some(code)) == code,
        exit_code_spec(None) == 1,
{
}

/// With `--keep` the overlay is kept, whatever the user would answer.
pub proof fn law_keep_flag_keeps(answer: Option<Seq<char>>)
    ensures
        action_spec(true, answer) == Action::Keep,
{
}

} // verus!
