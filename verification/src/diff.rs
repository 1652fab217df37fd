//! The summary of an overlay's changes: the lists by kind, the text shown to
//! the user, and the `diff` invocations that show each change.
use vstd::prelude::*;
use crate::overlay::{
    categorize_changes, change_views, law_stable_sort_unique, stable_sorted_of, walk_changes,
    Change, ChangeView, UpperEntry,
};
use crate::paths::{join, join_spec, push_string, push_text, string_views};

verus! {

broadcast use Seq::lemma_filter_push;

/// The kind of a change.
#[derive(Clone, Copy, PartialEq, Eq, Debug, Structural)]
pub enum ChangeKind {
    Added,
    Modified,
    Deleted,
}

pub open spec fn kind_of(c: ChangeView) -> ChangeKind {
    match c {
        ChangeView::Added(_) => ChangeKind::Added,
        ChangeView::Modified(_) => ChangeKind::Modified,
        ChangeView::Deleted(_) => ChangeKind::Deleted,
    }
}

/// The changes of kind `k`.
pub open spec fn of_kind(k: ChangeKind) -> spec_fn(ChangeView) -> bool {
    |c: ChangeView| kind_of(c) == k
}

/// The paths of the changes of kind `k`, in order.
pub open spec fn paths_of_kind(s: Seq<ChangeView>, k: ChangeKind) -> Seq<Seq<char>> {
    s.filter(of_kind(k)).map_values(|c: ChangeView| c.path())
}

impl Change {
    /// The kind of the change.
    pub fn kind(&self) -> (r: ChangeKind)
        ensures
            r == kind_of(self@),
    {
        match self {
            Change::Added(_) => ChangeKind::Added,
            Change::Modified(_) => ChangeKind::Modified,
            Change::Deleted(_) => ChangeKind::Deleted,
        }
    }
}

/// Summary of changes found in the overlay.
pub struct DiffSummary {
    pub changes: Vec<Change>,
}

impl DiffSummary {
    /// The changes, as views.
    pub open spec fn views(&self) -> Seq<ChangeView> {
        change_views(self.changes@)
    }

    pub fn is_empty(&self) -> (r: bool)
        ensures
            r == (self.changes@.len() == 0),
    {
        self.changes.len() == 0
    }

    /// The paths of the changes of kind `k`, in order.
    pub fn paths_of(&self, k: ChangeKind) -> (r: Vec<String>)
        ensures
            string_views(r@) == paths_of_kind(self.views(), k),
    {
        let ghost s = self.views();
        let mut r: Vec<String> = Vec::new();
        let mut i: usize = 0;
        while i < self.changes.len()
            invariant
                i <= self.changes.len(),
                s == self.views(),
                string_views(r@) == paths_of_kind(s.subrange(0, i as int), k),
            decreases self.changes.len() - i,
        {
            let c = &self.changes[i];
            assert(s.subrange(0, i + 1) =~= s.subrange(0, i as int).push(c@));
            let ghost before = s.subrange(0, i as int).filter(of_kind(k));
            if c.kind() == k {
                push_text(&mut r, c.path().as_str());
                assert(s.subrange(0, i + 1).filter(of_kind(k)) == before.push(c@));
                assert(before.push(c@).map_values(|c: ChangeView| c.path()) =~= before.map_values(
                    |c: ChangeView| c.path(),
                ).push(c@.path()));
            }
            i = i + 1;
        }
        assert(s.subrange(0, self.changes.len() as int) =~= s);
        r
    }

    pub fn added(&self) -> (r: Vec<String>)
        ensures
            string_views(r@) == paths_of_kind(self.views(), ChangeKind::Added),
    {
        self.paths_of(ChangeKind::Added)
    }

    pub fn modified(&self) -> (r: Vec<String>)
        ensures
            string_views(r@) == paths_of_kind(self.views(), ChangeKind::Modified),
    {
        self.paths_of(ChangeKind::Modified)
    }

    pub fn deleted(&self) -> (r: Vec<String>)
        ensures
            string_views(r@) == paths_of_kind(self.views(), ChangeKind::Deleted),
    {
        self.paths_of(ChangeKind::Deleted)
    }
}

/// Generate a diff summary from what the walk of the upper directory found:
/// the changes `categorize_changes` returns (a stable sort is unique, see
/// `law_stable_sort_unique`, so the two contracts name the same sequence).
pub fn summarize(entries: &Vec<UpperEntry>) -> (r: DiffSummary)
    ensures
        stable_sorted_of(r.views(), walk_changes(entries@)),
{
    DiffSummary { changes: categorize_changes(entries) }
}

/// The summary holds exactly the changes that `categorize_changes` returns
/// for the same entries: both contracts describe the one stable sort by path.
pub proof fn law_summary_is_categorization(
    entries: Seq<UpperEntry>,
    summary: DiffSummary,
    changes: Seq<Change>,
)
    requires
        stable_sorted_of(summary.views(), walk_changes(entries)),
        stable_sorted_of(change_views(changes), walk_changes(entries)),
    ensures
        summary.views() == change_views(changes),
{
    law_stable_sort_unique(summary.views(), change_views(changes), walk_changes(entries));
}

/// Every change has exactly one kind: the numbers of added, modified and
/// deleted paths add up to the number of changes.
pub proof fn law_counts_sum_to_total(s: Seq<ChangeView>)
    ensures
        paths_of_kind(s, ChangeKind::Added).len() + paths_of_kind(s, ChangeKind::Modified).len()
            + paths_of_kind(s, ChangeKind::Deleted).len() == s.len(),
    decreases s.len(),
{
    if s.len() > 0 {
        law_counts_sum_to_total(s.drop_last());
        assert(s.drop_last().push(s.last()) =~= s);
    } else {
        reveal(Seq::filter);
    }
}

// ---------------------------------------------------------------------------
// The text shown to the user.
// ---------------------------------------------------------------------------

/// The decimal digit for `d`.
pub open spec fn digit_char(d: nat) -> char {
    if d == 0 {
        '0'
    } else if d == 1 {
        '1'
    } else if d == 2 {
        '2'
    } else if d == 3 {
        '3'
    } else if d == 4 {
        '4'
    } else if d == 5 {
        '5'
    } else if d == 6 {
        '6'
    } else if d == 7 {
        '7'
    } else if d == 8 {
        '8'
    } else {
        '9'
    }
}

/// The decimal representation of `n`, without leading zeros.
pub open spec fn decimal(n: nat) -> Seq<char>
    decreases n,
{
    if n < 10 {
        seq![digit_char(n)]
    } else {
        decimal(n / 10).push(digit_char(n % 10))
    }
}

/// The number that a string of decimal digits stands for.
pub open spec fn digits_value(d: Seq<char>) -> int
    decreases d.len(),
{
    if d.len() == 0 {
        0
    } else {
        digits_value(d.drop_last()) * 10 + ((d.last() as int) - ('0' as int))
    }
}

/// `decimal(n)` is the usual writing of `n`: decimal digits only, no
/// leading zero (`0` itself is `0`), and it reads back as `n`.
pub proof fn law_decimal_reads_back(n: nat)
    ensures
        decimal(n).len() > 0,
        forall|i: int| 0 <= i < decimal(n).len() ==> '0' <= #[trigger] decimal(n)[i] && decimal(n)[i] <= '9',
        decimal(n)[0] != '0' || n == 0,
        digits_value(decimal(n)) == n,
    decreases n,
{
    if n < 10 {
        assert(digits_value(decimal(n).drop_last()) == 0) by {
            assert(decimal(n).drop_last() =~= Seq::<char>::empty());
        }
    } else {
        law_decimal_reads_back(n / 10);
        let d = decimal(n);
        let q = decimal(n / 10);
        assert(d.drop_last() =~= q);
        assert forall|i: int| 0 <= i < d.len() implies '0' <= #[trigger] d[i] && d[i] <= '9' by {
            if i < q.len() {
                assert(d[i] == q[i]);
            }
        }
        assert(d[0] == q[0]);
        assert(n / 10 > 0);
        assert(((d.last() as int) - ('0' as int)) == n % 10);
        assert(n == (n / 10) * 10 + n % 10);
    }
}

fn digit_text(d: usize) -> (r: &'static str)
    requires
        d < 10,
    ensures
        r@ == seq![digit_char(d as nat)],
{
    proof {
        reveal_strlit("0");
        reveal_strlit("1");
        reveal_strlit("2");
        reveal_strlit("3");
        reveal_strlit("4");
        reveal_strlit("5");
        reveal_strlit("6");
        reveal_strlit("7");
        reveal_strlit("8");
        reveal_strlit("9");
    }
    let r = if d == 0 {
        "0"
    } else if d == 1 {
        "1"
    } else if d == 2 {
        "2"
    } else if d == 3 {
        "3"
    } else if d == 4 {
        "4"
    } else if d == 5 {
        "5"
    } else if d == 6 {
        "6"
    } else if d == 7 {
        "7"
    } else if d == 8 {
        "8"
    } else {
        "9"
    };
    assert(r@ =~= seq![digit_char(d as nat)]);
    r
}

/// `n` in decimal.
pub fn decimal_text(n: usize) -> (r: String)
    ensures
        r@ == decimal(n as nat),
    decreases n,
{
    if n < 10 {
        digit_text(n).to_owned()
    } else {
        let mut r = decimal_text(n / 10);
        r.append(digit_text(n % 10));
        r
    }
}

/// The marker in front of a change's path.
pub open spec fn kind_tag(k: ChangeKind) -> Seq<char> {
    match k {
        ChangeKind::Added => "  A  "@,
        ChangeKind::Modified => "  M  "@,
        ChangeKind::Deleted => "  D  "@,
    }
}

/// One line per change: its marker, its path.
pub open spec fn change_lines(s: Seq<ChangeView>) -> Seq<char>
    decreases s.len(),
{
    if s.len() == 0 {
        Seq::empty()
    } else {
        change_lines(s.drop_last()) + kind_tag(kind_of(s.last())) + s.last().path() + "\n"@
    }
}

/// What the summary shows: `No changes.` when there are none; otherwise a
/// line per change and the counts of each kind.
pub open spec fn summary_text(s: Seq<ChangeView>) -> Seq<char> {
    if s.len() == 0 {
        "No changes.\n"@
    } else {
        change_lines(s) + "\n"@ + decimal(paths_of_kind(s, ChangeKind::Added).len()) + " added, "@
            + decimal(paths_of_kind(s, ChangeKind::Modified).len()) + " modified, "@ + decimal(
            paths_of_kind(s, ChangeKind::Deleted).len(),
        ) + " deleted\n"@
    }
}

/// The number of changes of each kind.
pub open spec fn added_count(s: Seq<ChangeView>) -> nat {
    s.filter(|c: ChangeView| c is Added).len()
}

pub open spec fn modified_count(s: Seq<ChangeView>) -> nat {
    s.filter(|c: ChangeView| c is Modified).len()
}

pub open spec fn deleted_count(s: Seq<ChangeView>) -> nat {
    s.filter(|c: ChangeView| c is Deleted).len()
}

/// The line shown for one change: `  A  `, `  M  ` or `  D  `, then its path.
pub open spec fn line_of(c: ChangeView) -> Seq<char> {
    match c {
        ChangeView::Added(p) => seq![' ', ' ', 'A', ' ', ' '] + p + seq!['\n'],
        ChangeView::Modified(p) => seq![' ', ' ', 'M', ' ', ' '] + p + seq!['\n'],
        ChangeView::Deleted(p) => seq![' ', ' ', 'D', ' ', ' '] + p + seq!['\n'],
    }
}

proof fn lemma_lines(s: Seq<ChangeView>)
    ensures
        s.len() > 0 ==> change_lines(s) == change_lines(s.drop_last()) + line_of(s.last()),
{
    reveal_strlit("  A  ");
    reveal_strlit("  M  ");
    reveal_strlit("  D  ");
    reveal_strlit("\n");
    if s.len() > 0 {
        let c = s.last();
        assert(kind_tag(kind_of(c)) + c.path() + "\n"@ =~= line_of(c));
        assert(change_lines(s) == change_lines(s.drop_last()) + kind_tag(kind_of(c)) + c.path()
            + "\n"@);
        assert(change_lines(s.drop_last()) + kind_tag(kind_of(c)) + c.path() + "\n"@
            =~= change_lines(s.drop_last()) + (kind_tag(kind_of(c)) + c.path() + "\n"@));
    }
}

/// The summary shows one line per change, in order: each change's marker
/// (`A`, `M` or `D`, by its kind) and path.
pub proof fn law_summary_lines(s: Seq<ChangeView>, c: ChangeView)
    ensures
        change_lines(Seq::<ChangeView>::empty()) == Seq::<char>::empty(),
        change_lines(s.push(c)) == change_lines(s) + line_of(c),
{
    lemma_lines(s.push(c));
    assert(s.push(c).drop_last() =~= s);
}

/// The summary ends with the counts: the number of added changes before
/// ` added, `, of modified ones before ` modified, `, of deleted ones before
/// ` deleted`; with no changes it is `No changes.` alone.
pub proof fn law_summary_counts(s: Seq<ChangeView>)
    ensures
        s.len() == 0 ==> summary_text(s) == seq!['N', 'o', ' ', 'c', 'h', 'a', 'n', 'g', 'e', 's', '.', '\n'],
        s.len() > 0 ==> summary_text(s) == change_lines(s) + seq!['\n'] + decimal(added_count(s))
            + seq![' ', 'a', 'd', 'd', 'e', 'd', ',', ' '] + decimal(modified_count(s)) + seq![
            ' ',
            'm',
            'o',
            'd',
            'i',
            'f',
            'i',
            'e',
            'd',
            ',',
            ' ',
        ] + decimal(deleted_count(s)) + seq![' ', 'd', 'e', 'l', 'e', 't', 'e', 'd', '\n'],
{
    reveal_strlit("No changes.\n");
    reveal_strlit("\n");
    reveal_strlit(" added, ");
    reveal_strlit(" modified, ");
    reveal_strlit(" deleted\n");
    assert(of_kind(ChangeKind::Added) =~= |c: ChangeView| c is Added);
    assert(of_kind(ChangeKind::Modified) =~= |c: ChangeView| c is Modified);
    assert(of_kind(ChangeKind::Deleted) =~= |c: ChangeView| c is Deleted);
    assert("No changes.\n"@ =~= seq!['N', 'o', ' ', 'c', 'h', 'a', 'n', 'g', 'e', 's', '.', '\n']);
    assert("\n"@ =~= seq!['\n']);
    assert(" added, "@ =~= seq![' ', 'a', 'd', 'd', 'e', 'd', ',', ' ']);
    assert(" modified, "@ =~= seq![' ', 'm', 'o', 'd', 'i', 'f', 'i', 'e', 'd', ',', ' ']);
    assert(" deleted\n"@ =~= seq![' ', 'd', 'e', 'l', 'e', 't', 'e', 'd', '\n']);
}

impl DiffSummary {
    /// The human-readable summary of the changes.
    pub fn render(&self) -> (r: String)
        ensures
            r@ == summary_text(self.views()),
    {
        if self.is_empty() {
            return "No changes.\n".to_owned();
        }
        let ghost s = self.views();
        let mut out = String::new();
        let mut i: usize = 0;
        while i < self.changes.len()
            invariant
                i <= self.changes.len(),
                s == self.views(),
                out@ == change_lines(s.subrange(0, i as int)),
            decreases self.changes.len() - i,
        {
            let c = &self.changes[i];
            assert(s.subrange(0, i + 1).drop_last() =~= s.subrange(0, i as int));
            assert(s.subrange(0, i + 1).last() == c@);
            let tag = match c.kind() {
                ChangeKind::Added => "  A  ",
                ChangeKind::Modified => "  M  ",
                ChangeKind::Deleted => "  D  ",
            };
            out.append(tag);
            out.append(c.path().as_str());
            out.append("\n");
            i = i + 1;
        }
        assert(s.subrange(0, self.changes.len() as int) =~= s);
        let a = self.added();
        let m = self.modified();
        let d = self.deleted();
        out.append("\n");
        out.append(decimal_text(a.len()).as_str());
        out.append(" added, ");
        out.append(decimal_text(m.len()).as_str());
        out.append(" modified, ");
        out.append(decimal_text(d.len()).as_str());
        out.append(" deleted\n");
        out
    }
}

// ---------------------------------------------------------------------------
// The `diff` invocations that show each change.
// ---------------------------------------------------------------------------

/// One run of `diff`: its arguments, and the path that must be a regular file
/// for the run to happen (none when it always happens).
pub struct DiffJob {
    pub args: Vec<String>,
    pub only_if_file: Option<String>,
}

/// The arguments of `diff` for a change: the repository's version against
/// the overlay's, with `/dev/null` standing for the side that has none.
pub open spec fn diff_args(upperdir: Seq<char>, repo: Seq<char>, c: ChangeView) -> Seq<Seq<char>> {
    match c {
        ChangeView::Modified(rel) => seq![
            "-u"@,
            "--color=auto"@,
            join_spec(repo, rel),
            join_spec(upperdir, rel),
        ],
        ChangeView::Added(rel) => seq!["-u"@, "--color=auto"@, "/dev/null"@, join_spec(upperdir, rel)],
        ChangeView::Deleted(rel) => seq!["-u"@, "--color=auto"@, join_spec(repo, rel), "/dev/null"@],
    }
}

/// A deletion is shown only when the repository's version is a regular file.
pub open spec fn diff_guard(repo: Seq<char>, c: ChangeView) -> Option<Seq<char>> {
    match c {
        ChangeView::Deleted(rel) => Some(join_spec(repo, rel)),
        _ => None,
    }
}

pub open spec fn option_view(o: Option<String>) -> Option<Seq<char>> {
    match o {
        Some(s) => Some(s@),
        None => None,
    }
}

/// `job` is the run of `diff` that shows the change `c`.
pub open spec fn job_shows(upperdir: Seq<char>, repo: Seq<char>, job: DiffJob, c: ChangeView) -> bool {
    &&& string_views(job.args@) == diff_args(upperdir, repo, c)
    &&& option_view(job.only_if_file) == diff_guard(repo, c)
}

/// The `diff` runs that show the changes, one per change, in order.
pub fn diff_jobs(upperdir: &str, repo: &str, summary: &DiffSummary) -> (r: Vec<DiffJob>)
    ensures
        r.len() == summary.changes.len(),
        forall|i: int|
            0 <= i < r.len() ==> string_views(#[trigger] r@[i].args@) == diff_args(
                upperdir@,
                repo@,
                summary.changes@[i]@,
            ) && option_view(r@[i].only_if_file) == diff_guard(repo@, summary.changes@[i]@),
{
    let mut r: Vec<DiffJob> = Vec::new();
    let mut i: usize = 0;
    while i < summary.changes.len()
        invariant
            i <= summary.changes.len(),
            r.len() == i,
            forall|j: int|
                0 <= j < i ==> job_shows(upperdir@, repo@, #[trigger] r@[j], summary.changes@[j]@),
        decreases summary.changes.len() - i,
    {
        let c = &summary.changes[i];
        let mut args: Vec<String> = Vec::new();
        push_text(&mut args, "-u");
        push_text(&mut args, "--color=auto");
        let job = match c {
            Change::Modified(rel) => {
                push_string(&mut args, join(repo, rel.as_str()));
                push_string(&mut args, join(upperdir, rel.as_str()));
                assert(string_views(args@) =~= diff_args(upperdir@, repo@, c@));
                DiffJob { args, only_if_file: None }
            },
            Change::Added(rel) => {
                push_text(&mut args, "/dev/null");
                push_string(&mut args, join(upperdir, rel.as_str()));
                assert(string_views(args@) =~= diff_args(upperdir@, repo@, c@));
                DiffJob { args, only_if_file: None }
            },
            Change::Deleted(rel) => {
                let target = join(repo, rel.as_str());
                push_string(&mut args, join(repo, rel.as_str()));
                push_text(&mut args, "/dev/null");
                assert(string_views(args@) =~= diff_args(upperdir@, repo@, c@));
                DiffJob { args, only_if_file: Some(target) }
            },
        };
        assert(job_shows(upperdir@, repo@, job, summary.changes@[i as int]@));
        let ghost old_r = r@;
        r.push(job);
        assert(forall|j: int| 0 <= j < i ==> r@[j] == old_r[j]);
        i = i + 1;
    }
    assert forall|j: int| 0 <= j < r.len() implies string_views(#[trigger] r@[j].args@) == diff_args(
        upperdir@,
        repo@,
        summary.changes@[j]@,
    ) && option_view(r@[j].only_if_file) == diff_guard(repo@, summary.changes@[j]@) by {
        assert(job_shows(upperdir@, repo@, r@[j], summary.changes@[j]@));
    }
    r
}

} // verus!
