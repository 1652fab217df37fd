//! A model of Unix path syntax: how a path string splits into components,
//! and the component-wise relations (`==`, `starts_with`, ordering, `join`)
//! that the rest of the crate relies on.
use vstd::prelude::*;
use vstd::string::*;

verus! {

/// The text between separators: `"a//b/"` splits into `a`, ``, `b`, ``.
pub open spec fn pieces(s: Seq<char>) -> Seq<Seq<char>>
    decreases s.len(),
{
    if s.len() == 0 {
        seq![Seq::<char>::empty()]
    } else {
        let p = pieces(s.drop_last());
        if s.last() == '/' {
            p.push(Seq::<char>::empty())
        } else {
            p.update(p.len() - 1, p.last().push(s.last()))
        }
    }
}

/// A piece that names something: not empty and not `.`.
pub open spec fn is_normal_piece(p: Seq<char>) -> bool {
    p.len() > 0 && p != seq!['.']
}

/// The pieces that name something, in order.
pub open spec fn normal_pieces(ps: Seq<Seq<char>>) -> Seq<Seq<char>>
    decreases ps.len(),
{
    if ps.len() == 0 {
        Seq::empty()
    } else {
        let rest = normal_pieces(ps.drop_last());
        if is_normal_piece(ps.last()) {
            rest.push(ps.last())
        } else {
            rest
        }
    }
}

/// The component that stands for the root directory.
pub open spec fn root_component() -> Seq<char> {
    seq!['/']
}

/// The component that stands for a leading current directory.
pub open spec fn cur_component() -> Seq<char> {
    seq!['.']
}

/// The leading component: the root for an absolute path, the current directory
/// for a relative path whose first piece is `.`, none otherwise.
pub open spec fn lead_components(s: Seq<char>) -> Seq<Seq<char>> {
    if s.len() > 0 && s[0] == '/' {
        seq![root_component()]
    } else if pieces(s)[0] == cur_component() {
        seq![cur_component()]
    } else {
        Seq::empty()
    }
}

/// The components of a path, as `std::path::Path::components` yields them on
/// Unix: the root (written `/`) or a leading current directory (written `.`),
/// then every non-empty piece other than `.`. Repeated and trailing separators
/// vanish, so two spellings of one path have the same components.
pub open spec fn components(s: Seq<char>) -> Seq<Seq<char>> {
    lead_components(s) + normal_pieces(pieces(s))
}

/// `a` is a prefix of `b`.
pub open spec fn seq_prefix<A>(a: Seq<A>, b: Seq<A>) -> bool {
    a.len() <= b.len() && b.subrange(0, a.len() as int) == a
}

/// `path` starts with `base`, comparing whole components (`Path::starts_with`).
pub open spec fn path_starts_with(path: Seq<char>, base: Seq<char>) -> bool {
    seq_prefix(components(base), components(path))
}

/// Two spellings of the same path (`Path`'s `==`).
pub open spec fn same_path(a: Seq<char>, b: Seq<char>) -> bool {
    components(a) == components(b)
}

/// `PathBuf::push` / `Path::join`: an absolute `rel` replaces `base`; otherwise a
/// separator goes between the two unless `base` is empty or already ends in one.
pub open spec fn join_spec(base: Seq<char>, rel: Seq<char>) -> Seq<char> {
    if rel.len() > 0 && rel[0] == '/' {
        rel
    } else if base.len() == 0 || base.last() == '/' {
        base + rel
    } else {
        base + seq!['/'] + rel
    }
}

/// The views of a vector of character vectors.
pub open spec fn rows(v: Seq<Vec<char>>) -> Seq<Seq<char>> {
    Seq::new(v.len(), |i: int| v[i]@)
}

pub proof fn lemma_pieces_nonempty(s: Seq<char>)
    ensures
        pieces(s).len() >= 1,
    decreases s.len(),
{
    if s.len() > 0 {
        lemma_pieces_nonempty(s.drop_last());
    }
}

/// The characters of a string, one by one.
pub fn chars_of(s: &str) -> (r: Vec<char>)
    ensures
        r@ == s@,
{
    let n = s.unicode_len();
    let mut r: Vec<char> = Vec::new();
    let mut i: usize = 0;
    while i < n
        invariant
            n == s@.len(),
            i <= n,
            r@ == s@.subrange(0, i as int),
        decreases n - i,
    {
        let c = s.get_char(i);
        r.push(c);
        i = i + 1;
        assert(r@ =~= s@.subrange(0, i as int));
    }
    assert(r@ =~= s@);
    r
}

/// Splits a path into its pieces.
fn split_pieces(cs: &Vec<char>) -> (r: Vec<Vec<char>>)
    ensures
        rows(r@) == pieces(cs@),
{
    let mut done: Vec<Vec<char>> = Vec::new();
    let mut cur: Vec<char> = Vec::new();
    let mut i: usize = 0;
    proof {
        assert(cs@.subrange(0, 0) =~= Seq::<char>::empty());
        assert(rows(done@).push(cur@) =~= pieces(cs@.subrange(0, 0)));
    }
    while i < cs.len()
        invariant
            i <= cs.len(),
            rows(done@).push(cur@) == pieces(cs@.subrange(0, i as int)),
        decreases cs.len() - i,
    {
        let c = cs[i];
        let ghost before = cs@.subrange(0, i as int);
        let ghost after = cs@.subrange(0, i + 1);
        assert(after.drop_last() =~= before);
        assert(after.last() == c);
        if c == '/' {
            let ghost old_done = done@;
            let ghost cur_v = cur@;
            done.push(cur);
            cur = Vec::new();
            assert(rows(done@) =~= rows(old_done).push(cur_v));
            assert(rows(done@).push(cur@) =~= pieces(after));
        } else {
            let ghost old_cur = cur@;
            cur.push(c);
            assert(rows(done@).push(cur@) =~= pieces(before).update(
                pieces(before).len() - 1,
                pieces(before).last().push(c),
            ));
        }
        i = i + 1;
    }
    assert(cs@.subrange(0, cs@.len() as int) =~= cs@);
    let ghost old_done = done@;
    done.push(cur);
    assert(rows(done@) =~= rows(old_done).push(cur@));
    done
}


/// Whether two character vectors hold the same characters.
pub fn chars_equal(a: &Vec<char>, b: &Vec<char>) -> (r: bool)
    ensures
        r == (a@ == b@),
{
    if a.len() != b.len() {
        return false;
    }
    let mut i: usize = 0;
    while i < a.len()
        invariant
            a.len() == b.len(),
            i <= a.len(),
            forall|j: int| 0 <= j < i ==> a@[j] == b@[j],
        decreases a.len() - i,
    {
        if a[i] != b[i] {
            return false;
        }
        i = i + 1;
    }
    assert(a@ =~= b@);
    true
}

fn is_normal_chars(p: &Vec<char>) -> (r: bool)
    ensures
        r == is_normal_piece(p@),
{
    if p.len() == 0 {
        false
    } else if p.len() == 1 && p[0] == '.' {
        assert(p@ =~= seq!['.']);
        false
    } else {
        assert(p@.len() != 1 ==> p@ != seq!['.']);
        true
    }
}

/// The components of a path (see `components`).
pub fn components_of(s: &str) -> (r: Vec<Vec<char>>)
    ensures
        rows(r@) == components(s@),
{
    let cs = chars_of(s);
    let ps = split_pieces(&cs);
    proof {
        lemma_pieces_nonempty(cs@);
    }
    let mut r: Vec<Vec<char>> = Vec::new();
    if cs.len() > 0 && cs[0] == '/' {
        let mut root: Vec<char> = Vec::new();
        root.push('/');
        assert(root@ =~= root_component());
        r.push(root);
        assert(rows(r@) =~= lead_components(s@));
    } else if ps[0].len() == 1 && ps[0][0] == '.' {
        assert(ps@[0]@ =~= cur_component());
        let mut cur: Vec<char> = Vec::new();
        cur.push('.');
        assert(cur@ =~= cur_component());
        r.push(cur);
        assert(rows(r@) =~= lead_components(s@));
    } else {
        assert(rows(ps@)[0] == ps@[0]@);
        assert(ps@[0]@.len() == 1 && ps@[0]@[0] == '.' ==> ps@[0]@ =~= cur_component());
        assert(ps@[0]@ == cur_component() ==> ps@[0]@.len() == 1 && ps@[0]@[0] == '.');
        assert(rows(r@) =~= lead_components(s@));
    }
    let ghost lead = rows(r@);
    let mut i: usize = 0;
    proof {
        assert(rows(ps@).subrange(0, 0) =~= Seq::<Seq<char>>::empty());
        assert(rows(r@) =~= lead + normal_pieces(rows(ps@).subrange(0, 0)));
    }
    while i < ps.len()
        invariant
            i <= ps.len(),
            rows(r@) == lead + normal_pieces(rows(ps@).subrange(0, i as int)),
        decreases ps.len() - i,
    {
        let ghost before = rows(ps@).subrange(0, i as int);
        let ghost after = rows(ps@).subrange(0, i + 1);
        assert(after.drop_last() =~= before);
        assert(after.last() == ps@[i as int]@);
        let ghost old_r = rows(r@);
        if is_normal_chars(&ps[i]) {
            let piece = ps[i].clone();
            r.push(piece);
            assert(rows(r@) =~= old_r.push(ps@[i as int]@));
            assert(rows(r@) =~= lead + normal_pieces(after));
        } else {
            assert(normal_pieces(after) == normal_pieces(before));
        }
        i = i + 1;
    }
    assert(rows(ps@).subrange(0, ps.len() as int) =~= rows(ps@));
    r
}

/// Whether `a` is a prefix of `b`, row by row.
fn rows_prefix(a: &Vec<Vec<char>>, b: &Vec<Vec<char>>) -> (r: bool)
    ensures
        r == seq_prefix(rows(a@), rows(b@)),
{
    if a.len() > b.len() {
        return false;
    }
    let mut i: usize = 0;
    while i < a.len()
        invariant
            a.len() <= b.len(),
            i <= a.len(),
            forall|j: int| 0 <= j < i ==> a@[j]@ == b@[j]@,
        decreases a.len() - i,
    {
        if !chars_equal(&a[i], &b[i]) {
            assert(rows(b@).subrange(0, a.len() as int)[i as int] != rows(a@)[i as int]);
            return false;
        }
        i = i + 1;
    }
    assert(rows(b@).subrange(0, a.len() as int) =~= rows(a@));
    true
}

/// `Path::starts_with`: `base`'s components are a prefix of `path`'s.
pub fn starts_with(path: &str, base: &str) -> (r: bool)
    ensures
        r == path_starts_with(path@, base@),
{
    let p = components_of(path);
    let b = components_of(base);
    rows_prefix(&b, &p)
}

/// `Path`'s `==`: the two strings have the same components.
pub fn same_path_exec(a: &str, b: &str) -> (r: bool)
    ensures
        r == same_path(a@, b@),
{
    let ca = components_of(a);
    let cb = components_of(b);
    let r = ca.len() == cb.len() && rows_prefix(&ca, &cb);
    proof {
        if ca.len() == cb.len() {
            assert(rows(cb@).subrange(0, ca.len() as int) =~= rows(cb@));
        }
        if same_path(a@, b@) {
            assert(rows(ca@).len() == rows(cb@).len());
        }
    }
    r
}

/// `Path::join`, on strings.
pub fn join(base: &str, rel: &str) -> (r: String)
    ensures
        r@ == join_spec(base@, rel@),
{
    let rel_len = rel.unicode_len();
    let base_len = base.unicode_len();
    if rel_len > 0 && rel.get_char(0) == '/' {
        return rel.to_owned();
    }
    let mut out = base.to_owned();
    if base_len > 0 && base.get_char(base_len - 1) != '/' {
        out.append("/");
        proof {
            reveal_strlit("/");
        }
    }
    out.append(rel);
    out
}

// ---------------------------------------------------------------------------
// Ordering of paths (`Ord for Path`): lexicographic over components, where the
// root comes first, then a leading `.`, then `..`, then names in code-point
// order (which is the byte order of their UTF-8 encoding).
// ---------------------------------------------------------------------------

/// Lexicographic strict order of two sequences, given a strict order of items.
pub open spec fn lex_lt<A>(a: Seq<A>, b: Seq<A>, lt: spec_fn(A, A) -> bool) -> bool
    decreases a.len(),
{
    if a.len() == 0 {
        b.len() > 0
    } else if b.len() == 0 {
        false
    } else if a[0] == b[0] {
        lex_lt(a.drop_first(), b.drop_first(), lt)
    } else {
        lt(a[0], b[0])
    }
}

/// `lt` is a strict total order.
pub open spec fn strict_total<A>(lt: spec_fn(A, A) -> bool) -> bool {
    &&& forall|x: A| !#[trigger] lt(x, x)
    &&& forall|x: A, y: A, z: A| #[trigger] lt(x, y) && #[trigger] lt(y, z) ==> lt(x, z)
    &&& forall|x: A, y: A| x != y ==> #[trigger] lt(x, y) || #[trigger] lt(y, x)
}

pub proof fn lemma_lex_irreflexive<A>(a: Seq<A>, lt: spec_fn(A, A) -> bool)
    ensures
        !lex_lt(a, a, lt),
    decreases a.len(),
{
    if a.len() > 0 {
        lemma_lex_irreflexive(a.drop_first(), lt);
    }
}

pub proof fn lemma_lex_transitive<A>(a: Seq<A>, b: Seq<A>, c: Seq<A>, lt: spec_fn(A, A) -> bool)
    requires
        strict_total(lt),
        lex_lt(a, b, lt),
        lex_lt(b, c, lt),
    ensures
        lex_lt(a, c, lt),
    decreases a.len(),
{
    if a.len() > 0 && b.len() > 0 && c.len() > 0 {
        if a[0] == b[0] && b[0] == c[0] {
            lemma_lex_transitive(a.drop_first(), b.drop_first(), c.drop_first(), lt);
        } else if a[0] == b[0] {
        } else if b[0] == c[0] {
        } else {
            assert(lt(a[0], b[0]) && lt(b[0], c[0]));
            if a[0] == c[0] {
                assert(lt(a[0], a[0]));
            }
        }
    }
}

pub proof fn lemma_lex_total<A>(a: Seq<A>, b: Seq<A>, lt: spec_fn(A, A) -> bool)
    requires
        strict_total(lt),
    ensures
        a == b || lex_lt(a, b, lt) || lex_lt(b, a, lt),
    decreases a.len(),
{
    if a.len() > 0 && b.len() > 0 {
        if a[0] == b[0] {
            lemma_lex_total(a.drop_first(), b.drop_first(), lt);
            if a.drop_first() == b.drop_first() {
                assert(a =~= seq![a[0]] + a.drop_first());
                assert(b =~= seq![b[0]] + b.drop_first());
            }
        } else {
            assert(lt(a[0], b[0]) || lt(b[0], a[0]));
        }
    } else if a.len() == 0 && b.len() == 0 {
        assert(a =~= b);
    }
}

/// Code-point order of characters.
pub open spec fn char_lt() -> spec_fn(char, char) -> bool {
    |x: char, y: char| (x as int) < (y as int)
}

/// Where a component stands among the kinds: root, leading `.`, `..`, a name.
pub open spec fn component_rank(c: Seq<char>) -> int {
    if c == root_component() {
        0
    } else if c == cur_component() {
        1
    } else if c == seq!['.', '.'] {
        2
    } else {
        3
    }
}

/// Strict order of components (`Ord for Component`).
pub open spec fn component_lt() -> spec_fn(Seq<char>, Seq<char>) -> bool {
    |x: Seq<char>, y: Seq<char>|
        component_rank(x) < component_rank(y) || (component_rank(x) == component_rank(y)
            && component_rank(x) == 3 && lex_lt(x, y, char_lt()))
}

/// Strict order of paths (`Ord for Path`), over their components.
pub open spec fn components_lt(a: Seq<Seq<char>>, b: Seq<Seq<char>>) -> bool {
    lex_lt(a, b, component_lt())
}

pub proof fn lemma_char_lt_strict_total()
    ensures
        strict_total(char_lt()),
{
    assert forall|x: char, y: char| x != y implies #[trigger] char_lt()(x, y) || #[trigger] char_lt()(
        y,
        x,
    ) by {
        assert((x as int) != (y as int));
    };
}

pub proof fn lemma_component_lt_strict_total()
    ensures
        strict_total(component_lt()),
{
    lemma_char_lt_strict_total();
    let lt = component_lt();
    assert forall|x: Seq<char>| !#[trigger] lt(x, x) by {
        lemma_lex_irreflexive(x, char_lt());
    };
    assert forall|x: Seq<char>, y: Seq<char>, z: Seq<char>| #[trigger] lt(x, y) && #[trigger] lt(
        y,
        z,
    ) implies lt(x, z) by {
        if component_rank(x) == 3 && component_rank(y) == 3 && component_rank(z) == 3 {
            lemma_lex_transitive(x, y, z, char_lt());
        }
    };
    assert forall|x: Seq<char>, y: Seq<char>| x != y implies #[trigger] lt(x, y) || #[trigger] lt(
        y,
        x,
    ) by {
        if component_rank(x) == 3 && component_rank(y) == 3 {
            lemma_lex_total(x, y, char_lt());
        }
    };
}

/// The order of paths is a strict total order.
pub proof fn lemma_components_lt_strict_total()
    ensures
        strict_total(|a: Seq<Seq<char>>, b: Seq<Seq<char>>| components_lt(a, b)),
{
    lemma_component_lt_strict_total();
    let lt = |a: Seq<Seq<char>>, b: Seq<Seq<char>>| components_lt(a, b);
    assert forall|x: Seq<Seq<char>>| !#[trigger] lt(x, x) by {
        lemma_lex_irreflexive(x, component_lt());
    };
    assert forall|x: Seq<Seq<char>>, y: Seq<Seq<char>>, z: Seq<Seq<char>>| #[trigger] lt(x, y)
        && #[trigger] lt(y, z) implies lt(x, z) by {
        lemma_lex_transitive(x, y, z, component_lt());
    };
    assert forall|x: Seq<Seq<char>>, y: Seq<Seq<char>>| x != y implies #[trigger] lt(x, y)
        || #[trigger] lt(y, x) by {
        lemma_lex_total(x, y, component_lt());
    };
}

pub fn char_code(c: char) -> (r: u32)
    ensures
        r as int == c as int,
{
    c as u32
}

fn chars_lt_exec(a: &Vec<char>, b: &Vec<char>) -> (r: bool)
    ensures
        r == lex_lt(a@, b@, char_lt()),
{
    let mut i: usize = 0;
    assert(a@.skip(0) =~= a@);
    assert(b@.skip(0) =~= b@);
    while i < a.len() && i < b.len() && a[i] == b[i]
        invariant
            i <= a.len(),
            i <= b.len(),
            lex_lt(a@, b@, char_lt()) == lex_lt(a@.skip(i as int), b@.skip(i as int), char_lt()),
        decreases a.len() - i,
    {
        assert(a@.skip(i as int).drop_first() =~= a@.skip(i + 1));
        assert(b@.skip(i as int).drop_first() =~= b@.skip(i + 1));
        i = i + 1;
    }
    assert(a@.skip(i as int).len() == a.len() - i);
    assert(b@.skip(i as int).len() == b.len() - i);
    if i == a.len() {
        i < b.len()
    } else if i == b.len() {
        false
    } else {
        assert(a@.skip(i as int)[0] == a@[i as int]);
        assert(b@.skip(i as int)[0] == b@[i as int]);
        let ca: char = a[i];
        let cb: char = b[i];
        let x: u32 = char_code(ca);
        let y: u32 = char_code(cb);
        assert(a@[i as int] != b@[i as int]);
        x < y
    }
}

fn rank_exec(c: &Vec<char>) -> (r: u8)
    ensures
        r as int == component_rank(c@),
{
    if c.len() == 1 && c[0] == '/' {
        assert(c@ =~= root_component());
        0
    } else if c.len() == 1 && c[0] == '.' {
        assert(c@ =~= cur_component());
        1
    } else if c.len() == 2 && c[0] == '.' && c[1] == '.' {
        assert(c@ =~= seq!['.', '.']);
        2
    } else {
        assert(c@ != root_component() && c@ != cur_component() && c@ != seq!['.', '.']) by {
            if c@ == root_component() {
                assert(c@.len() == 1 && c@[0] == '/');
            }
            if c@ == cur_component() {
                assert(c@.len() == 1 && c@[0] == '.');
            }
            if c@ == seq!['.', '.'] {
                assert(c@.len() == 2 && c@[0] == '.' && c@[1] == '.');
            }
        };
        3
    }
}

fn component_lt_exec(a: &Vec<char>, b: &Vec<char>) -> (r: bool)
    ensures
        r == component_lt()(a@, b@),
{
    let ra = rank_exec(a);
    let rb = rank_exec(b);
    if ra != rb {
        ra < rb
    } else if ra == 3 {
        chars_lt_exec(a, b)
    } else {
        false
    }
}

/// Whether the path with components `a` sorts before the one with components `b`.
pub fn components_lt_exec(a: &Vec<Vec<char>>, b: &Vec<Vec<char>>) -> (r: bool)
    ensures
        r == components_lt(rows(a@), rows(b@)),
{
    let mut i: usize = 0;
    assert(rows(a@).skip(0) =~= rows(a@));
    assert(rows(b@).skip(0) =~= rows(b@));
    while i < a.len() && i < b.len() && chars_equal(&a[i], &b[i])
        invariant
            i <= a.len(),
            i <= b.len(),
            components_lt(rows(a@), rows(b@)) == components_lt(
                rows(a@).skip(i as int),
                rows(b@).skip(i as int),
            ),
        decreases a.len() - i,
    {
        assert(rows(a@).skip(i as int).drop_first() =~= rows(a@).skip(i + 1));
        assert(rows(b@).skip(i as int).drop_first() =~= rows(b@).skip(i + 1));
        i = i + 1;
    }
    assert(rows(a@).skip(i as int).len() == a.len() - i);
    assert(rows(b@).skip(i as int).len() == b.len() - i);
    if i == a.len() {
        i < b.len()
    } else if i == b.len() {
        false
    } else {
        assert(rows(a@).skip(i as int)[0] == a@[i as int]@);
        assert(rows(b@).skip(i as int)[0] == b@[i as int]@);
        component_lt_exec(&a[i], &b[i])
    }
}

/// The views of a sequence of strings.
pub open spec fn string_views(v: Seq<String>) -> Seq<Seq<char>> {
    v.map_values(|s: String| s@)
}

/// Whether two strings hold the same characters.
pub fn text_equal(a: &str, b: &str) -> (r: bool)
    ensures
        r == (a@ == b@),
{
    let ca = chars_of(a);
    let cb = chars_of(b);
    chars_equal(&ca, &cb)
}

/// Appends a string to a list of strings.
pub fn push_text(args: &mut Vec<String>, s: &str)
    ensures
        string_views(final(args)@) == string_views(old(args)@).push(s@),
{
    args.push(s.to_owned());
    assert(string_views(args@) =~= string_views(old(args)@).push(s@));
}

/// Appends an owned string to a list of strings.
pub fn push_string(args: &mut Vec<String>, s: String)
    ensures
        string_views(final(args)@) == string_views(old(args)@).push(s@),
{
    let ghost v = s@;
    args.push(s);
    assert(string_views(args@) =~= string_views(old(args)@).push(v));
}

// ---------------------------------------------------------------------------
// Lemmas on the shape of components.
// ---------------------------------------------------------------------------

/// The last piece of `a + b`: `b`'s last piece when `b` holds a separator,
/// otherwise `a`'s last piece continued by `b`.
pub proof fn lemma_last_piece(a: Seq<char>, b: Seq<char>)
    ensures
        pieces(a + b).last() == if b.contains('/') {
            pieces(b).last()
        } else {
            pieces(a).last() + b
        },
    decreases b.len(),
{
    lemma_pieces_nonempty(a);
    lemma_pieces_nonempty(b);
    lemma_pieces_nonempty(a + b);
    if b.len() == 0 {
        assert(a + b =~= a);
        assert(pieces(a).last() + b =~= pieces(a).last());
    } else {
        let c = b.last();
        let bd = b.drop_last();
        assert((a + b).drop_last() =~= a + bd);
        assert((a + b).last() == c);
        lemma_last_piece(a, bd);
        lemma_pieces_nonempty(a + bd);
        lemma_pieces_nonempty(bd);
        if c == '/' {
            assert(b.contains('/')) by { assert(b[b.len() - 1] == '/'); };
        } else {
            assert(b.contains('/') == bd.contains('/')) by {
                if b.contains('/') {
                    let i = choose|i: int| 0 <= i < b.len() && b[i] == '/';
                    assert(bd[i] == '/');
                }
                if bd.contains('/') {
                    let i = choose|i: int| 0 <= i < bd.len() && bd[i] == '/';
                    assert(b[i] == '/');
                }
            };
            if !bd.contains('/') {
                assert(pieces(a).last() + b =~= (pieces(a).last() + bd).push(c));
            }
        }
    }
}


/// Pieces of two paths joined by a separator are the pieces of each.
pub proof fn lemma_pieces_concat(a: Seq<char>, b: Seq<char>)
    ensures
        pieces(a + seq!['/'] + b) == pieces(a) + pieces(b),
    decreases b.len(),
{
    lemma_pieces_nonempty(b);
    if b.len() == 0 {
        assert((a + seq!['/'] + b).drop_last() =~= a);
        assert(pieces(a + seq!['/'] + b) =~= pieces(a) + pieces(b));
    } else {
        let bd = b.drop_last();
        assert((a + seq!['/'] + b).drop_last() =~= a + seq!['/'] + bd);
        lemma_pieces_concat(a, bd);
        lemma_pieces_nonempty(bd);
        assert(pieces(a + seq!['/'] + b) =~= pieces(a) + pieces(b));
    }
}

/// A path without separators is one piece.
pub proof fn lemma_pieces_no_slash(s: Seq<char>)
    requires
        !s.contains('/'),
    ensures
        pieces(s) == seq![s],
    decreases s.len(),
{
    if s.len() > 0 {
        let sd = s.drop_last();
        assert(!sd.contains('/')) by {
            if sd.contains('/') {
                let i = choose|i: int| 0 <= i < sd.len() && sd[i] == '/';
                assert(s[i] == '/');
            }
        };
        lemma_pieces_no_slash(sd);
        assert(s[s.len() - 1] != '/');
        assert(sd.push(s.last()) =~= s);
        assert(pieces(s) =~= seq![s]);
    } else {
        assert(s =~= Seq::<char>::empty());
        assert(pieces(s) =~= seq![s]);
    }
}

/// The absolute path with the given names, `/n1/n2/...`.
pub open spec fn abs_path(parts: Seq<Seq<char>>) -> Seq<char>
    decreases parts.len(),
{
    if parts.len() == 0 {
        Seq::empty()
    } else {
        abs_path(parts.drop_last()) + seq!['/'] + parts.last()
    }
}

/// A name that is a component by itself.
pub open spec fn simple_name(p: Seq<char>) -> bool {
    is_normal_piece(p) && !p.contains('/')
}

proof fn lemma_abs_pieces(parts: Seq<Seq<char>>)
    requires
        forall|i: int| 0 <= i < parts.len() ==> simple_name(#[trigger] parts[i]),
    ensures
        pieces(abs_path(parts)) == seq![Seq::<char>::empty()] + parts,
    decreases parts.len(),
{
    if parts.len() == 0 {
        assert(pieces(abs_path(parts)) =~= seq![Seq::<char>::empty()] + parts);
    } else {
        let front = parts.drop_last();
        assert forall|i: int| 0 <= i < front.len() implies simple_name(#[trigger] front[i]) by {
            assert(front[i] == parts[i]);
        };
        lemma_abs_pieces(front);
        lemma_pieces_concat(abs_path(front), parts.last());
        assert(simple_name(parts[parts.len() - 1]));
        lemma_pieces_no_slash(parts.last());
        assert(pieces(abs_path(parts)) =~= seq![Seq::<char>::empty()] + parts);
    }
}

proof fn lemma_normal_all(parts: Seq<Seq<char>>)
    requires
        forall|i: int| 0 <= i < parts.len() ==> simple_name(#[trigger] parts[i]),
    ensures
        normal_pieces(seq![Seq::<char>::empty()] + parts) == parts,
    decreases parts.len(),
{
    if parts.len() == 0 {
        let one = seq![Seq::<char>::empty()];
        assert(one + parts =~= one);
        assert(one.drop_last() =~= Seq::<Seq<char>>::empty());
        assert(!is_normal_piece(one.last()));
        assert(normal_pieces(Seq::<Seq<char>>::empty()) =~= Seq::<Seq<char>>::empty());
        assert(normal_pieces(one) =~= Seq::<Seq<char>>::empty());
        assert(normal_pieces(seq![Seq::<char>::empty()] + parts) =~= parts);
    } else {
        let front = parts.drop_last();
        assert forall|i: int| 0 <= i < front.len() implies simple_name(#[trigger] front[i]) by {
            assert(front[i] == parts[i]);
        };
        lemma_normal_all(front);
        assert((seq![Seq::<char>::empty()] + parts).drop_last() =~= seq![Seq::<char>::empty()]
            + front);
        assert(simple_name(parts[parts.len() - 1]));
        assert(normal_pieces(seq![Seq::<char>::empty()] + parts) =~= parts);
    }
}

/// The components of `/n1/n2/...` are the root and the names.
pub proof fn lemma_abs_components(parts: Seq<Seq<char>>)
    requires
        parts.len() > 0,
        forall|i: int| 0 <= i < parts.len() ==> simple_name(#[trigger] parts[i]),
    ensures
        components(abs_path(parts)) == seq![root_component()] + parts,
{
    lemma_abs_pieces(parts);
    lemma_normal_all(parts);
    let s = abs_path(parts);
    let front = parts.drop_last();
    assert(s =~= abs_path(front) + seq!['/'] + parts.last());
    if abs_path(front).len() == 0 {
        assert(s[0] == '/');
    } else {
        // abs_path of a non-empty list starts with a separator.
        lemma_abs_starts(front);
        assert(s[0] == abs_path(front)[0]);
    }
    assert(lead_components(s) == seq![root_component()]);
}

proof fn lemma_abs_starts(parts: Seq<Seq<char>>)
    requires
        abs_path(parts).len() > 0,
    ensures
        abs_path(parts)[0] == '/',
    decreases parts.len(),
{
    let front = parts.drop_last();
    if abs_path(front).len() > 0 {
        lemma_abs_starts(front);
    }
}

/// When the last piece of a path names something, it is the path's last
/// component.
pub proof fn lemma_last_component(s: Seq<char>)
    requires
        is_normal_piece(pieces(s).last()),
    ensures
        components(s).len() > 0,
        components(s).last() == pieces(s).last(),
{
    lemma_pieces_nonempty(s);
    let ps = pieces(s);
    assert(normal_pieces(ps) == normal_pieces(ps.drop_last()).push(ps.last()));
}

} // verus!
