//! Commit-history statistics over a bounded walk: contributors, monthly
//! activity, recent commits and the most touched paths.
use vstd::prelude::*;
use crate::ranking::{rank_desc, top_indices, lemma_top_indices};
use crate::tree::opt_view;

verus! {

/// A user as the history or a hosting service knows them.
pub struct GitHubUser {
    pub login: String,
    pub id: u64,
    pub avatar_url: String,
    pub html_url: String,
    pub contributions: Option<u32>,
}

/// A commit as reported in an analysis; `date` is in seconds since the Unix
/// epoch.
pub struct GitHubCommit {
    pub sha: String,
    pub message: String,
    pub author: GitHubUser,
    pub date: i64,
    pub additions: u32,
    pub deletions: u32,
    pub files_changed: u32,
}

/// One commit as the repository walk reads it, newest first.
pub struct CommitRecord {
    pub sha: String,
    pub message: String,
    pub author_name: Option<String>,
    pub author_email: Option<String>,
    /// Seconds since the Unix epoch.
    pub time: i64,
    /// The paths of the commit's tree, in pre-order.
    pub tree_entries: Vec<String>,
}

/// How many commits the walk visits at most.
pub const HISTORY_LIMIT: usize = 1000;

/// How many commits are kept as recent commits.
pub const RECENT_LIMIT: usize = 50;

/// How many tree entries of one commit are counted: the walk of a tree stops
/// once more than 100 have been seen.
pub const TREE_ENTRY_LIMIT: usize = 101;

/// How many of the most touched paths are kept.
pub const ACTIVE_FILES_LIMIT: usize = 20;

/// The year and month (`YYYY-MM`) of a timestamp in UTC, if the timestamp
/// is within the calendar's range.
pub uninterp spec fn year_month_of(secs: i64) -> Option<Seq<char>>;

/// Relies on `chrono::DateTime::from_timestamp` and `format("%Y-%m")`: the
/// month of a timestamp, none for one out of range.
#[verifier::external_body]
fn year_month(secs: i64) -> (r: Option<String>)
    ensures
        opt_view(r) == year_month_of(secs),
{
    chrono::DateTime::from_timestamp(secs, 0).map(|d| d.format("%Y-%m").to_string())
}

/// The commits that the walk visits.
pub open spec fn walked(cs: Seq<CommitRecord>) -> Seq<CommitRecord> {
    if cs.len() > HISTORY_LIMIT {
        cs.take(HISTORY_LIMIT as int)
    } else {
        cs
    }
}

/// The identity key `name:email` of a commit's author, if both are known.
pub open spec fn author_key(c: CommitRecord) -> Option<Seq<char>> {
    match (c.author_name, c.author_email) {
        (Some(n), Some(e)) => Some(n@ + ":"@ + e@),
        _ => None,
    }
}

/// One more occurrence of `k` in a tally: its count goes up by one, or it is
/// appended with count one.
pub open spec fn tally_push(t: Seq<(Seq<char>, int)>, k: Seq<char>) -> Seq<(Seq<char>, int)> {
    let i = tally_index(t, k);
    if i >= 0 {
        t.update(i, (k, t[i].1 + 1))
    } else {
        t.push((k, 1))
    }
}

/// The index of `k` in a tally, or -1.
pub open spec fn tally_index(t: Seq<(Seq<char>, int)>, k: Seq<char>) -> int
    decreases t.len(),
{
    if t.len() == 0 {
        -1
    } else {
        let p = tally_index(t.drop_last(), k);
        if p >= 0 {
            p
        } else if t.last().0 == k {
            t.len() - 1
        } else {
            -1
        }
    }
}

/// The occurrences of each key of `ks`, keys in order of first appearance.
pub open spec fn tally(ks: Seq<Seq<char>>) -> Seq<(Seq<char>, int)>
    decreases ks.len(),
{
    if ks.len() == 0 {
        Seq::empty()
    } else {
        tally_push(tally(ks.drop_last()), ks.last())
    }
}

/// The keys that are known, in order.
pub open spec fn known(ks: Seq<Option<Seq<char>>>) -> Seq<Seq<char>>
    decreases ks.len(),
{
    if ks.len() == 0 {
        Seq::empty()
    } else {
        match ks.last() {
            Some(k) => known(ks.drop_last()).push(k),
            None => known(ks.drop_last()),
        }
    }
}

/// The author keys of the commits `ws`, where known.
pub open spec fn author_keys(ws: Seq<CommitRecord>) -> Seq<Seq<char>> {
    known(ws.map_values(|c: CommitRecord| author_key(c)))
}

/// The months of the commits `ws`, where in range.
pub open spec fn months(ws: Seq<CommitRecord>) -> Seq<Seq<char>> {
    known(ws.map_values(|c: CommitRecord| year_month_of(c.time)))
}

/// The counted tree entries of the commits `ws`, one commit after another.
pub open spec fn touched(ws: Seq<CommitRecord>) -> Seq<Seq<char>>
    decreases ws.len(),
{
    if ws.len() == 0 {
        Seq::empty()
    } else {
        let es = ws.last().tree_entries@.map_values(|s: String| s@);
        touched(ws.drop_last()) + if es.len() > TREE_ENTRY_LIMIT {
            es.take(TREE_ENTRY_LIMIT as int)
        } else {
            es
        }
    }
}

/// The login of the contributor with key `k`: the author name of the first
/// commit of `ws` with that key.
pub open spec fn first_login(ws: Seq<CommitRecord>, k: Seq<char>) -> Seq<char>
    decreases ws.len(),
{
    if ws.len() == 0 {
        Seq::empty()
    } else if tally_index(tally(author_keys(ws.drop_last())), k) >= 0 {
        first_login(ws.drop_last(), k)
    } else {
        match ws.last().author_name {
            Some(n) => n@,
            None => Seq::empty(),
        }
    }
}

/// Tally entries as character sequences and counts.
pub open spec fn tally_view(v: Seq<(String, u32)>) -> Seq<(Seq<char>, int)> {
    v.map_values(|p: (String, u32)| (p.0@, p.1 as int))
}

proof fn lemma_tally_index_range(t: Seq<(Seq<char>, int)>, k: Seq<char>)
    ensures
        -1 <= tally_index(t, k) < t.len(),
        tally_index(t, k) >= 0 ==> t[tally_index(t, k)].0 == k,
        tally_index(t, k) < 0 ==> forall|i: int| 0 <= i < t.len() ==> t[i].0 != k,
        tally_index(t, k) >= 0 ==> forall|i: int| 0 <= i < tally_index(t, k) ==> t[i].0 != k,
    decreases t.len(),
{
    if t.len() > 0 {
        lemma_tally_index_range(t.drop_last(), k);
        let p = tally_index(t.drop_last(), k);
        if p >= 0 {
            assert(t[p] == t.drop_last()[p]);
            assert forall|i: int| 0 <= i < p implies t[i].0 != k by {
                assert(t[i] == t.drop_last()[i]);
            }
        } else {
            assert forall|i: int| 0 <= i < t.len() - 1 implies t[i].0 != k by {
                assert(t[i] == t.drop_last()[i]);
            }
        }
    }
}

/// Every count of a tally is between one and the number of keys tallied.
pub proof fn lemma_tally_bounded(ks: Seq<Seq<char>>)
    ensures
        tally(ks).len() <= ks.len(),
        forall|i: int| 0 <= i < tally(ks).len() ==> 1 <= #[trigger] tally(ks)[i].1 <= ks.len(),
    decreases ks.len(),
{
    if ks.len() > 0 {
        lemma_tally_bounded(ks.drop_last());
        lemma_tally_index_range(tally(ks.drop_last()), ks.last());
    }
}

/// Adds one occurrence of `k` to the tally `t`; returns whether `k` is new.
fn tally_add(t: &mut Vec<(String, u32)>, k: String) -> (r: bool)
    requires
        forall|i: int| 0 <= i < old(t)@.len() ==> #[trigger] old(t)@[i].1 < u32::MAX,
    ensures
        tally_view(final(t)@) == tally_push(tally_view(old(t)@), k@),
        r == (tally_index(tally_view(old(t)@), k@) < 0),
{
    let ghost tv = tally_view(t@);
    proof {
        lemma_tally_index_range(tv, k@);
    }
    let mut i: usize = 0;
    while i < t.len() && t[i].0 != k
        invariant
            i <= t@.len(),
            tv == tally_view(t@),
            forall|j: int| 0 <= j < i ==> tv[j].0 != k@,
        decreases t.len() - i,
    {
        i = i + 1;
    }
    if i < t.len() {
        assert(tally_index(tv, k@) == i) by {
            lemma_tally_index_range(tv, k@);
            let p = tally_index(tv, k@);
            if p < 0 {
                assert(tv[i as int].0 == k@);
            } else if p > i {
                assert(tv[i as int].0 == k@);
            }
        }
        let c = t[i].1;
        t[i] = (k, c + 1);
        assert(tally_view(t@) =~= tally_push(tv, k@));
        false
    } else {
        assert(tally_index(tv, k@) < 0) by {
            lemma_tally_index_range(tv, k@);
            if tally_index(tv, k@) >= 0 {
                assert(tv[tally_index(tv, k@)].0 == k@);
            }
        }
        t.push((k, 1));
        assert(tally_view(t@) =~= tally_push(tv, k@));
        true
    }
}

proof fn lemma_known_step(ks: Seq<Option<Seq<char>>>, n: int)
    requires
        0 <= n < ks.len(),
    ensures
        known(ks.take(n + 1)) == match ks[n] {
            Some(k) => known(ks.take(n)).push(k),
            None => known(ks.take(n)),
        },
{
    assert(ks.take(n + 1).drop_last() =~= ks.take(n));
    assert(ks.take(n + 1).last() == ks[n]);
}

proof fn lemma_known_len(ks: Seq<Option<Seq<char>>>)
    ensures
        known(ks).len() <= ks.len(),
    decreases ks.len(),
{
    if ks.len() > 0 {
        lemma_known_len(ks.drop_last());
    }
}

/// The occurrences of each of `keys`, keys in order of first appearance.
pub fn tally_of(keys: &Vec<String>) -> (r: Vec<(String, u32)>)
    requires
        keys@.len() <= u32::MAX,
    ensures
        tally_view(r@) == tally(keys@.map_values(|k: String| k@)),
{
    let ghost kv = keys@.map_values(|k: String| k@);
    let mut t: Vec<(String, u32)> = Vec::new();
    let mut i: usize = 0;
    assert(tally_view(t@) =~= tally(kv.take(0)));
    while i < keys.len()
        invariant
            i <= keys@.len(),
            keys@.len() <= u32::MAX,
            kv == keys@.map_values(|k: String| k@),
            tally_view(t@) == tally(kv.take(i as int)),
        decreases keys.len() - i,
    {
        proof {
            lemma_tally_bounded(kv.take(i as int));
            assert forall|j: int| 0 <= j < t@.len() implies #[trigger] t@[j].1 < u32::MAX by {
                assert(tally_view(t@)[j].1 == t@[j].1 as int);
            }
            assert(kv.take(i + 1).drop_last() =~= kv.take(i as int));
            assert(kv.take(i + 1).last() == keys@[i as int]@);
        }
        tally_add(&mut t, keys[i].clone());
        i = i + 1;
    }
    assert(kv.take(i as int) =~= kv);
    t
}

/// The tally of the months of the first `n` commits of `ws`.
fn count_months(ws: &Vec<CommitRecord>, n: usize) -> (r: Vec<(String, u32)>)
    requires
        n <= ws@.len(),
        n <= HISTORY_LIMIT,
    ensures
        tally_view(r@) == tally(months(ws@.take(n as int))),
{
    let ghost ms = ws@.map_values(|c: CommitRecord| year_month_of(c.time));
    let mut found: Vec<String> = Vec::new();
    let mut i: usize = 0;
    assert(found@.map_values(|k: String| k@) =~= known(ms.take(0)));
    while i < n
        invariant
            i <= n <= ws@.len(),
            n <= HISTORY_LIMIT,
            ms == ws@.map_values(|c: CommitRecord| year_month_of(c.time)),
            found@.map_values(|k: String| k@) == known(ms.take(i as int)),
        decreases n - i,
    {
        proof {
            lemma_known_step(ms, i as int);
        }
        assert(ms[i as int] == year_month_of(ws@[i as int].time));
        match year_month(ws[i].time) {
            Some(m) => {
                let ghost pre = found@.map_values(|k: String| k@);
                found.push(m);
                assert(found@.map_values(|k: String| k@) =~= pre.push(found@.last()@));
            },
            None => {},
        }
        i = i + 1;
    }
    proof {
        lemma_known_len(ms.take(n as int));
    }
    assert(ms.take(n as int) =~= ws@.take(n as int).map_values(
        |c: CommitRecord| year_month_of(c.time),
    ));
    tally_of(&found)
}

/// The tally of the author keys of the first `n` commits of `ws`, and the
/// login that goes with each key.
fn count_authors(ws: &Vec<CommitRecord>, n: usize) -> (r: (Vec<(String, u32)>, Vec<String>))
    requires
        n <= ws@.len(),
        n <= HISTORY_LIMIT,
    ensures
        tally_view(r.0@) == tally(author_keys(ws@.take(n as int))),
        r.1@.len() == r.0@.len(),
        forall|j: int|
            0 <= j < r.1@.len() ==> (#[trigger] r.1@[j])@ == first_login(
                ws@.take(n as int),
                r.0@[j].0@,
            ),
{
    let ghost ks = ws@.map_values(|c: CommitRecord| author_key(c));
    let mut t: Vec<(String, u32)> = Vec::new();
    let mut logins: Vec<String> = Vec::new();
    let mut i: usize = 0;
    assert(tally_view(t@) =~= tally(known(ks.take(0))));
    while i < n
        invariant
            i <= n <= ws@.len(),
            n <= HISTORY_LIMIT,
            ks == ws@.map_values(|c: CommitRecord| author_key(c)),
            tally_view(t@) == tally(known(ks.take(i as int))),
            logins@.len() == t@.len(),
            forall|j: int|
                0 <= j < logins@.len() ==> (#[trigger] logins@[j])@ == first_login(
                    ws@.take(i as int),
                    t@[j].0@,
                ),
        decreases n - i,
    {
        let ghost pre = ws@.take(i as int);
        let ghost cur = ws@.take(i + 1);
        let ghost old_t = t@;
        let ghost old_tv = tally_view(t@);
        proof {
            assert(cur.drop_last() =~= pre);
            assert(cur.last() == ws@[i as int]);
            assert(pre.map_values(|c: CommitRecord| author_key(c)) =~= ks.take(i as int));
            assert(cur.map_values(|c: CommitRecord| author_key(c)) =~= ks.take(i + 1));
            lemma_known_step(ks, i as int);
            lemma_known_len(ks.take(i as int));
            lemma_tally_bounded(known(ks.take(i as int)));
            lemma_tally_index_range(old_tv, Seq::empty());
            assert forall|j: int| 0 <= j < t@.len() implies #[trigger] t@[j].1 < u32::MAX by {
                assert(tally_view(t@)[j].1 == t@[j].1 as int);
            }
            assert forall|j: int| 0 <= j < old_t.len() implies tally_index(old_tv, #[trigger] old_t[j].0@)
                >= 0 by {
                lemma_tally_index_range(old_tv, old_t[j].0@);
                assert(old_tv[j].0 == old_t[j].0@);
            }
        }
        let c = &ws[i];
        match (&c.author_name, &c.author_email) {
            (Some(name), Some(email)) => {
                let key = name.clone().concat(":").concat(email.as_str());
                let ghost kv = key@;
                assert(author_key(ws@[i as int]) == Some(kv));
                assert(known(ks.take(i as int)).push(kv).drop_last() =~= known(ks.take(i as int)));
                proof {
                    lemma_tally_index_range(old_tv, kv);
                }
                let fresh = tally_add(&mut t, key);
                if fresh {
                    logins.push(name.clone());
                }
                assert(tally_view(t@).len() == t@.len());
                assert(old_tv.len() == old_t.len());
                assert(logins@.len() == t@.len());
                assert forall|j: int| 0 <= j < logins@.len() implies (#[trigger] logins@[j])@
                    == first_login(cur, t@[j].0@) by {
                    if j < old_t.len() {
                        assert(t@[j].0@ == old_t[j].0@) by {
                            assert(tally_view(t@)[j].0 == t@[j].0@);
                            lemma_tally_index_range(old_tv, kv);
                        }
                        assert(tally_index(old_tv, old_t[j].0@) >= 0);
                    } else {
                        assert(tally_view(t@)[j].0 == t@[j].0@);
                        assert(tally_view(t@)[j].0 == kv);
                    }
                }
            },
            _ => {
                assert(author_key(ws@[i as int]) is None);
            },
        }
        i = i + 1;
    }
    assert(ks.take(n as int) =~= ws@.take(n as int).map_values(|c: CommitRecord| author_key(c)));
    (t, logins)
}

proof fn lemma_touched_len(ws: Seq<CommitRecord>)
    ensures
        touched(ws).len() <= ws.len() * TREE_ENTRY_LIMIT,
    decreases ws.len(),
{
    if ws.len() > 0 {
        lemma_touched_len(ws.drop_last());
    }
}

/// The tally of the counted tree entries of the first `n` commits of `ws`.
fn count_touches(ws: &Vec<CommitRecord>, n: usize) -> (r: Vec<(String, u32)>)
    requires
        n <= ws@.len(),
        n <= HISTORY_LIMIT,
    ensures
        tally_view(r@) == tally(touched(ws@.take(n as int))),
{
    let mut t: Vec<(String, u32)> = Vec::new();
    let mut i: usize = 0;
    assert(ws@.take(0) =~= Seq::<CommitRecord>::empty());
    while i < n
        invariant
            i <= n <= ws@.len(),
            n <= HISTORY_LIMIT,
            tally_view(t@) == tally(touched(ws@.take(i as int))),
        decreases n - i,
    {
        let ghost pre = ws@.take(i as int);
        let ghost cur = ws@.take(i + 1);
        assert(cur.drop_last() =~= pre);
        assert(cur.last() == ws@[i as int]);
        let entries = &ws[i].tree_entries;
        let ghost es = entries@.map_values(|s: String| s@);
        let ghost base = touched(pre);
        let k = if entries.len() > TREE_ENTRY_LIMIT {
            TREE_ENTRY_LIMIT
        } else {
            entries.len()
        };
        let mut j: usize = 0;
        proof {
            lemma_touched_len(pre);
            assert(base + es.take(0) =~= base);
        }
        while j < k
            invariant
                j <= k <= entries@.len(),
                k <= TREE_ENTRY_LIMIT,
                i < HISTORY_LIMIT,
                base.len() <= i * TREE_ENTRY_LIMIT,
                es == entries@.map_values(|s: String| s@),
                tally_view(t@) == tally(base + es.take(j as int)),
            decreases k - j,
        {
            proof {
                let ks = base + es.take(j as int);
                lemma_tally_bounded(ks);
                assert(ks.len() <= i * TREE_ENTRY_LIMIT + TREE_ENTRY_LIMIT) by (nonlinear_arith)
                    requires
                        ks.len() == base.len() + j,
                        base.len() <= i * TREE_ENTRY_LIMIT,
                        j < TREE_ENTRY_LIMIT,
                ;
                assert(i * TREE_ENTRY_LIMIT <= HISTORY_LIMIT * TREE_ENTRY_LIMIT) by (nonlinear_arith)
                    requires
                        i < HISTORY_LIMIT,
                ;
                assert forall|q: int| 0 <= q < t@.len() implies #[trigger] t@[q].1 < u32::MAX by {
                    assert(tally_view(t@)[q].1 == t@[q].1 as int);
                }
                assert((base + es.take(j + 1)).drop_last() =~= base + es.take(j as int));
                assert((base + es.take(j + 1)).last() == entries@[j as int]@);
            }
            tally_add(&mut t, entries[j].clone());
            j = j + 1;
        }
        proof {
            if k == entries.len() {
                assert(es.take(j as int) =~= es);
            }
        }
        i = i + 1;
    }
    t
}

/// Statistics of the commit history.
pub struct GitAnalysis {
    pub total_commits: u32,
    /// One entry per author identity, in order of first appearance.
    pub contributors: Vec<GitHubUser>,
    pub recent_commits: Vec<GitHubCommit>,
    /// `YYYY-MM` to the number of commits in that month, months in order of
    /// first appearance.
    pub commit_frequency: Vec<(String, u32)>,
    /// The most touched paths with their touch counts, most touched first.
    pub most_active_files: Vec<(String, u32)>,
    pub branch_count: u32,
    pub tag_count: u32,
    /// Seconds since the Unix epoch of the first commit walked (the newest).
    pub first_commit_date: Option<i64>,
    /// Seconds since the Unix epoch of the last commit walked.
    pub last_commit_date: Option<i64>,
}

/// The user recorded as a contributor.
pub open spec fn contributor_ok(u: GitHubUser, login: Seq<char>, count: int) -> bool {
    &&& u.login@ == login
    &&& u.id == 0
    &&& u.avatar_url@ == Seq::<char>::empty()
    &&& u.html_url@ == Seq::<char>::empty()
    &&& u.contributions == Some(count as u32)
}

/// The commit recorded as a recent commit for the record `c`.
pub open spec fn recent_ok(g: GitHubCommit, c: CommitRecord) -> bool {
    &&& g.sha@ == c.sha@
    &&& g.message@ == c.message@
    &&& g.author.login@ == match c.author_name {
        Some(n) => n@,
        None => "Unknown"@,
    }
    &&& g.author.id == 0
    &&& g.author.avatar_url@ == Seq::<char>::empty()
    &&& g.author.html_url@ == Seq::<char>::empty()
    &&& g.author.contributions is None
    &&& g.date == c.time
    &&& g.additions == 0
    &&& g.deletions == 0
    &&& g.files_changed == 0
}

/// The entries of a tally at the indices `idx`.
pub open spec fn pick_tally(t: Seq<(Seq<char>, int)>, idx: Seq<int>) -> Seq<(Seq<char>, int)> {
    idx.map_values(|i: int| t[i])
}

/// The most touched paths: the `ACTIVE_FILES_LIMIT` entries of the tally
/// with the highest counts, stable.
pub open spec fn most_active(t: Seq<(Seq<char>, int)>) -> Seq<(Seq<char>, int)> {
    pick_tally(
        t,
        top_indices(t.map_values(|p: (Seq<char>, int)| p.1), ACTIVE_FILES_LIMIT as int),
    )
}

fn user(login: String, contributions: Option<u32>) -> (r: GitHubUser)
    ensures
        r.login@ == login@,
        r.id == 0,
        r.avatar_url@ == Seq::<char>::empty(),
        r.html_url@ == Seq::<char>::empty(),
        r.contributions == contributions,
{
    let avatar_url = String::new();
    let html_url = String::new();
    GitHubUser { login, id: 0, avatar_url, html_url, contributions }
}

/// Statistics of a history from its commits, newest first, and the
/// repository's branch and tag counts. At most `HISTORY_LIMIT` commits are
/// walked; of each, at most `TREE_ENTRY_LIMIT` tree entries count as
/// touched.
pub fn analyze_history(commits: &Vec<CommitRecord>, branch_count: u32, tag_count: u32) -> (r:
    GitAnalysis)
    ensures
        ({
            let ws = walked(commits@);
            let authors = tally(author_keys(ws));
            &&& r.total_commits == ws.len()
            &&& r.first_commit_date == if ws.len() > 0 {
                Some(ws[0].time)
            } else {
                None
            }
            &&& r.last_commit_date == if ws.len() > 0 {
                Some(ws.last().time)
            } else {
                None
            }
            &&& r.contributors@.len() == authors.len()
            &&& forall|j: int|
                0 <= j < authors.len() ==> contributor_ok(
                    #[trigger] r.contributors@[j],
                    first_login(ws, authors[j].0),
                    authors[j].1,
                )
            &&& r.recent_commits@.len() == if ws.len() > RECENT_LIMIT {
                RECENT_LIMIT as int
            } else {
                ws.len() as int
            }
            &&& forall|i: int|
                0 <= i < r.recent_commits@.len() ==> recent_ok(#[trigger] r.recent_commits@[i], ws[i])
            &&& tally_view(r.commit_frequency@) == tally(months(ws))
            &&& tally_view(r.most_active_files@) == most_active(tally(touched(ws)))
            &&& r.branch_count == branch_count
            &&& r.tag_count == tag_count
        }),
{
    let n = if commits.len() > HISTORY_LIMIT {
        HISTORY_LIMIT
    } else {
        commits.len()
    };
    let ghost ws = walked(commits@);
    assert(ws =~= commits@.take(n as int));
    let commit_frequency = count_months(commits, n);
    let (keys, logins) = count_authors(commits, n);
    proof {
        lemma_known_len(ws.map_values(|c: CommitRecord| author_key(c)));
        lemma_tally_bounded(author_keys(ws));
    }
    let mut contributors: Vec<GitHubUser> = Vec::new();
    let mut j: usize = 0;
    while j < keys.len()
        invariant
            j <= keys@.len(),
            logins@.len() == keys@.len(),
            tally_view(keys@) == tally(author_keys(ws)),
            forall|q: int|
                0 <= q < logins@.len() ==> (#[trigger] logins@[q])@ == first_login(ws, keys@[q].0@),
            contributors@.len() == j,
            forall|q: int|
                0 <= q < j ==> contributor_ok(
                    #[trigger] contributors@[q],
                    first_login(ws, tally(author_keys(ws))[q].0),
                    tally(author_keys(ws))[q].1,
                ),
        decreases keys.len() - j,
    {
        assert(tally_view(keys@)[j as int] == (keys@[j as int].0@, keys@[j as int].1 as int));
        contributors.push(user(logins[j].clone(), Some(keys[j].1)));
        j = j + 1;
    }
    let mut recent_commits: Vec<GitHubCommit> = Vec::new();
    let m = if n > RECENT_LIMIT {
        RECENT_LIMIT
    } else {
        n
    };
    let mut i: usize = 0;
    while i < m
        invariant
            i <= m <= n <= commits@.len(),
            ws == commits@.take(n as int),
            recent_commits@.len() == i,
            forall|q: int| 0 <= q < i ==> recent_ok(#[trigger] recent_commits@[q], ws[q]),
        decreases m - i,
    {
        let c = &commits[i];
        let login = match &c.author_name {
            Some(name) => name.clone(),
            None => "Unknown".to_string(),
        };
        recent_commits.push(
            GitHubCommit {
                sha: c.sha.clone(),
                message: c.message.clone(),
                author: user(login, None),
                date: c.time,
                additions: 0,
                deletions: 0,
                files_changed: 0,
            },
        );
        i = i + 1;
    }
    let touches = count_touches(commits, n);
    let mut counts: Vec<u64> = Vec::new();
    let ghost tv = tally_view(touches@);
    let mut k: usize = 0;
    while k < touches.len()
        invariant
            k <= touches@.len(),
            tv == tally_view(touches@),
            counts@.map_values(|c: u64| c as int) == tv.map_values(|p: (Seq<char>, int)| p.1).take(
                k as int,
            ),
        decreases touches.len() - k,
    {
        assert(tv[k as int] == (touches@[k as int].0@, touches@[k as int].1 as int));
        let ghost pre = counts@.map_values(|c: u64| c as int);
        let ghost ksq = tv.map_values(|p: (Seq<char>, int)| p.1);
        counts.push(touches[k].1 as u64);
        assert(ksq[k as int] == touches@[k as int].1 as int);
        assert(counts@.map_values(|c: u64| c as int) =~= pre.push(touches@[k as int].1 as int));
        assert(ksq.take(k + 1) =~= ksq.take(k as int).push(ksq[k as int]));
        k = k + 1;
    }
    let ghost keys_seq = tv.map_values(|p: (Seq<char>, int)| p.1);
    assert(keys_seq.take(k as int) =~= keys_seq);
    let order = rank_desc(&counts);
    proof {
        lemma_top_indices(keys_seq, ACTIVE_FILES_LIMIT as int);
        crate::ranking::lemma_sort_desc(keys_seq, keys_seq.len() as int);
    }
    let top = if order.len() > ACTIVE_FILES_LIMIT {
        ACTIVE_FILES_LIMIT
    } else {
        order.len()
    };
    let ghost idx = top_indices(keys_seq, ACTIVE_FILES_LIMIT as int);
    assert(idx =~= order@.map_values(|i: usize| i as int).take(top as int));
    let mut most_active_files: Vec<(String, u32)> = Vec::new();
    let mut q: usize = 0;
    while q < top
        invariant
            q <= top <= order@.len(),
            idx == order@.map_values(|i: usize| i as int).take(top as int),
            order@.len() == touches@.len(),
            forall|x: int| 0 <= x < idx.len() ==> 0 <= #[trigger] idx[x] < touches@.len(),
            tv == tally_view(touches@),
            tally_view(most_active_files@) == pick_tally(tv, idx.take(q as int)),
        decreases top - q,
    {
        assert(idx[q as int] == order@[q as int] as int);
        let e = &touches[order[q]];
        assert(tv[order@[q as int] as int] == (e.0@, e.1 as int));
        let ghost pre = tally_view(most_active_files@);
        let name = e.0.clone();
        most_active_files.push((name, e.1));
        assert(tally_view(most_active_files@) =~= pre.push((e.0@, e.1 as int)));
        assert(tally_view(most_active_files@) =~= pick_tally(tv, idx.take(q + 1)));
        q = q + 1;
    }
    assert(idx.take(q as int) =~= idx);
    proof {
        lemma_known_len(ws.map_values(|c: CommitRecord| year_month_of(c.time)));
    }
    GitAnalysis {
        total_commits: n as u32,
        contributors,
        recent_commits,
        commit_frequency,
        most_active_files,
        branch_count,
        tag_count,
        first_commit_date: if n > 0 {
            Some(commits[0].time)
        } else {
            None
        },
        last_commit_date: if n > 0 {
            Some(commits[n - 1].time)
        } else {
            None
        },
    }
}

} // verus!
