//! The fetch-and-save worker and the worker pool's cycle model.
//!
//! A worker handles one link: consult the ledger, then the disk, then (and
//! only then) fetch. The pool runs every link of a cycle and aggregates the
//! outcomes. Here the decisions are verified over plain inputs: whether the
//! file was on disk, and whether the fetch succeeded, arrive as values, and
//! the outside world performs the fetch itself between `worker_decide` and
//! `worker_apply`.

use vstd::prelude::*;
use vstd::string::StrSliceExecFns;
use vstd::string::StringExecFns;

use crate::extract::Link;
use crate::ledger::DedupLedger;

verus! {

/// What a worker does with one link, decided before any transfer.
#[derive(Debug, Clone, Copy, PartialEq, Eq, Structural)]
pub enum WorkerAction {
    /// The ledger already holds the path: nothing to do.
    SkipKnown,
    /// The file already sits on disk: record it, nothing to transfer.
    SkipExisting,
    /// Unknown and absent: fetch it.
    Fetch,
}

/// How handling one link ended.
#[derive(Debug, Clone, Copy, PartialEq, Eq, Structural)]
pub enum LinkOutcome {
    Downloaded,
    Skipped,
    Failed,
}

/// Counts of one full pass over a page's links.
#[derive(Debug, Clone, Copy, PartialEq, Eq, Structural)]
pub struct SyncCycleOutcome {
    pub links_seen: usize,
    pub downloaded: usize,
    pub skipped: usize,
    pub failed: usize,
    /// Wall-clock duration of the pass; the caller measures and fills it,
    /// and nothing here depends on it.
    pub elapsed_ms: u64,
}

/// The candidate local path of a file: `directory/name`.
pub open spec fn path_join(dir: Seq<char>, name: Seq<char>) -> Seq<char> {
    dir + seq!['/'] + name
}

/// The candidate local paths of a cycle's links under `dir`.
pub open spec fn cycle_paths(dir: Seq<char>, links: Seq<Link>) -> Seq<Seq<char>> {
    links.map_values(|l: Link| path_join(dir, l.name@))
}

/// The worker's decision for one link.
pub open spec fn decide_spec(known: Set<Seq<char>>, path: Seq<char>, on_disk: bool) -> WorkerAction {
    if known.contains(path) {
        WorkerAction::SkipKnown
    } else if on_disk {
        WorkerAction::SkipExisting
    } else {
        WorkerAction::Fetch
    }
}

/// The outcome of one link, given whether its fetch (if any) succeeded.
pub open spec fn outcome_spec(
    known: Set<Seq<char>>,
    path: Seq<char>,
    on_disk: bool,
    fetch_ok: bool,
) -> LinkOutcome {
    if decide_spec(known, path, on_disk) == WorkerAction::Fetch {
        if fetch_ok {
            LinkOutcome::Downloaded
        } else {
            LinkOutcome::Failed
        }
    } else {
        LinkOutcome::Skipped
    }
}

/// The ledger after one link: grown by the path exactly when the file was
/// freshly downloaded or found pre-existing; untouched on a failed fetch,
/// so a later cycle retries.
pub open spec fn ledger_after_spec(
    known: Set<Seq<char>>,
    path: Seq<char>,
    on_disk: bool,
    fetch_ok: bool,
) -> Set<Seq<char>> {
    let a = decide_spec(known, path, on_disk);
    if a == WorkerAction::SkipExisting || (a == WorkerAction::Fetch && fetch_ok) {
        known.insert(path)
    } else {
        known
    }
}

/// The pool's pass over a cycle's links, linearized in ledger order: the
/// final ledger and the downloaded, skipped and failed counts.
pub open spec fn pool_run(
    paths: Seq<Seq<char>>,
    known: Set<Seq<char>>,
    disk: Seq<bool>,
    fetched: Seq<bool>,
) -> (Set<Seq<char>>, int, int, int)
    recommends
        disk.len() == paths.len(),
        fetched.len() == paths.len(),
    decreases paths.len(),
{
    if paths.len() == 0 {
        (known, 0, 0, 0)
    } else {
        let o = outcome_spec(known, paths[0], disk[0], fetched[0]);
        let k2 = ledger_after_spec(known, paths[0], disk[0], fetched[0]);
        let rest = pool_run(paths.drop_first(), k2, disk.drop_first(), fetched.drop_first());
        (
            rest.0,
            rest.1 + if o == LinkOutcome::Downloaded {
                1int
            } else {
                0int
            },
            rest.2 + if o == LinkOutcome::Skipped {
                1int
            } else {
                0int
            },
            rest.3 + if o == LinkOutcome::Failed {
                1int
            } else {
                0int
            },
        )
    }
}

/// Builds the candidate local path `directory/name`.
pub fn local_path(directory: &str, name: &str) -> (p: String)
    ensures
        p@ == path_join(directory@, name@),
{
    let mut p = directory.to_owned();
    p.append("/");
    p.append(name);
    proof {
        reveal_strlit("/");
        assert("/"@ =~= seq!['/']);
        assert(p@ =~= path_join(directory@, name@));
    }
    p
}

/// Completes a protocol-relative locator with `https:`; any other locator
/// passes through unchanged.
pub open spec fn normalized_url(u: Seq<char>) -> Seq<char> {
    if u.len() >= 2 && u[0] == '/' && u[1] == '/' {
        seq!['h', 't', 't', 'p', 's', ':'] + u
    } else {
        u
    }
}

/// Runtime form of `normalized_url`.
pub fn normalize_url(url: &str) -> (r: String)
    ensures
        r@ == normalized_url(url@),
{
    if url.unicode_len() >= 2 && url.get_char(0) == '/' && url.get_char(1) == '/' {
        let mut r = String::from_str("https:");
        r.append(url);
        proof {
            reveal_strlit("https:");
            assert("https:"@ =~= seq!['h', 't', 't', 'p', 's', ':']);
            assert(r@ =~= normalized_url(url@));
        }
        r
    } else {
        url.to_owned()
    }
}

/// The worker's first step: decide from the shared ledger and the disk
/// check what to do with one link. Read-only.
pub fn worker_decide(ledger: &DedupLedger, path: &String, on_disk: bool) -> (a: WorkerAction)
    ensures
        a == decide_spec(ledger@, path@, on_disk),
{
    if ledger.contains(path) {
        WorkerAction::SkipKnown
    } else if on_disk {
        WorkerAction::SkipExisting
    } else {
        WorkerAction::Fetch
    }
}

/// The worker's second step, after any transfer ran outside: record the
/// path when the file is now confirmed (freshly downloaded, or found
/// pre-existing), and report the outcome. A failed fetch leaves the ledger
/// untouched, so a later cycle retries the link.
pub fn worker_apply(
    ledger: &mut DedupLedger,
    path: &String,
    action: WorkerAction,
    fetch_ok: bool,
) -> (o: LinkOutcome)
    requires
        old(ledger)@.finite(),
    ensures
        final(ledger)@.finite(),
        o == (if action == WorkerAction::Fetch {
            if fetch_ok {
                LinkOutcome::Downloaded
            } else {
                LinkOutcome::Failed
            }
        } else {
            LinkOutcome::Skipped
        }),
        final(ledger)@ == (if action == WorkerAction::SkipExisting || (action
            == WorkerAction::Fetch && fetch_ok) {
            old(ledger)@.insert(path@)
        } else {
            old(ledger)@
        }),
        old(ledger)@.subset_of(final(ledger)@),
{
    match action {
        WorkerAction::SkipKnown => LinkOutcome::Skipped,
        WorkerAction::SkipExisting => {
            ledger.record(path);
            LinkOutcome::Skipped
        },
        WorkerAction::Fetch => {
            if fetch_ok {
                ledger.record(path);
                LinkOutcome::Downloaded
            } else {
                LinkOutcome::Failed
            }
        },
    }
}

/// One link, both steps composed, with the transfer's result as a value.
pub fn process_link(ledger: &mut DedupLedger, path: &String, on_disk: bool, fetch_ok: bool) -> (o:
    LinkOutcome)
    requires
        old(ledger)@.finite(),
    ensures
        final(ledger)@.finite(),
        o == outcome_spec(old(ledger)@, path@, on_disk, fetch_ok),
        final(ledger)@ == ledger_after_spec(old(ledger)@, path@, on_disk, fetch_ok),
        old(ledger)@.subset_of(final(ledger)@),
{
    let a = worker_decide(ledger, path, on_disk);
    worker_apply(ledger, path, a, fetch_ok)
}

/// One cycle of the worker pool over extracted links: processes every
/// link against `directory`, consulting and growing the shared ledger, and
/// aggregates the outcome counts. `on_disk[i]` and `fetch_ok[i]` carry what
/// the outside world reported for link `i`; `concurrency` is the pool
/// width, which bounds simultaneous transfers but never changes counts or
/// ledger (completion order is unspecified; this is the ledger-order
/// linearization).
pub fn run_cycle(
    links: &Vec<Link>,
    directory: &String,
    ledger: &mut DedupLedger,
    on_disk: &Vec<bool>,
    fetch_ok: &Vec<bool>,
    concurrency: usize,
) -> (out: SyncCycleOutcome)
    requires
        old(ledger)@.finite(),
        on_disk@.len() == links@.len(),
        fetch_ok@.len() == links@.len(),
        concurrency >= 1,
    ensures
        final(ledger)@.finite(),
        old(ledger)@.subset_of(final(ledger)@),
        ({
            let r = pool_run(cycle_paths(directory@, links@), old(ledger)@, on_disk@, fetch_ok@);
            final(ledger)@ == r.0 && out.downloaded == r.1 && out.skipped == r.2 && out.failed
                == r.3
        }),
        out.links_seen == links@.len(),
        out.downloaded + out.skipped + out.failed == links@.len(),
        out.elapsed_ms == 0,
{
    let n = links.len();
    proof {
        let cp = cycle_paths(directory@, links@);
        assert(cp.skip(0) =~= cp);
        assert(on_disk@.skip(0) =~= on_disk@);
        assert(fetch_ok@.skip(0) =~= fetch_ok@);
    }
    let mut d: usize = 0;
    let mut s: usize = 0;
    let mut f: usize = 0;
    let mut i: usize = 0;
    while i < n
        invariant
            i <= n,
            n == links@.len(),
            on_disk@.len() == n,
            fetch_ok@.len() == n,
            ledger@.finite(),
            old(ledger)@.subset_of(ledger@),
            d + s + f == i,
            ({
                let full = pool_run(
                    cycle_paths(directory@, links@),
                    old(ledger)@,
                    on_disk@,
                    fetch_ok@,
                );
                let rem = pool_run(
                    cycle_paths(directory@, links@).skip(i as int),
                    ledger@,
                    on_disk@.skip(i as int),
                    fetch_ok@.skip(i as int),
                );
                full.0 == rem.0 && full.1 == d + rem.1 && full.2 == s + rem.2 && full.3 == f
                    + rem.3
            }),
        decreases n - i,
    {
        let ghost known_pre = ledger@;
        let li = &links[i];
        let path = local_path(directory.as_str(), li.name.as_str());
        let o = process_link(ledger, &path, on_disk[i], fetch_ok[i]);
        proof {
            let cp = cycle_paths(directory@, links@);
            assert(cp[i as int] == path_join(directory@, links@[i as int].name@));
            assert(cp.skip(i as int)[0] == cp[i as int]);
            assert(on_disk@.skip(i as int)[0] == on_disk@[i as int]);
            assert(fetch_ok@.skip(i as int)[0] == fetch_ok@[i as int]);
            assert(cp.skip(i as int).drop_first() =~= cp.skip(i + 1 as int));
            assert(on_disk@.skip(i as int).drop_first() =~= on_disk@.skip(i + 1 as int));
            assert(fetch_ok@.skip(i as int).drop_first() =~= fetch_ok@.skip(i + 1 as int));
            let r_i = pool_run(
                cp.skip(i as int),
                known_pre,
                on_disk@.skip(i as int),
                fetch_ok@.skip(i as int),
            );
            let r_i1 = pool_run(
                cp.skip(i + 1 as int),
                ledger@,
                on_disk@.skip(i + 1 as int),
                fetch_ok@.skip(i + 1 as int),
            );
            assert(r_i.0 == r_i1.0 && r_i.1 == r_i1.1 + (if o == LinkOutcome::Downloaded {
                1int
            } else {
                0int
            }) && r_i.2 == r_i1.2 + (if o == LinkOutcome::Skipped {
                1int
            } else {
                0int
            }) && r_i.3 == r_i1.3 + (if o == LinkOutcome::Failed {
                1int
            } else {
                0int
            }));
        }
        match o {
            LinkOutcome::Downloaded => {
                d = d + 1;
            },
            LinkOutcome::Skipped => {
                s = s + 1;
            },
            LinkOutcome::Failed => {
                f = f + 1;
            },
        }
        i = i + 1;
    }
    proof {
        let cp = cycle_paths(directory@, links@);
        assert(cp.skip(n as int).len() == 0);
        assert(pool_run(cp.skip(n as int), ledger@, on_disk@.skip(n as int), fetch_ok@.skip(n as int)).0
            == ledger@);
    }
    SyncCycleOutcome { links_seen: n, downloaded: d, skipped: s, failed: f, elapsed_ms: 0 }
}

/// The ledger never loses an entry over a pool pass.
pub proof fn lemma_pool_run_monotone(
    paths: Seq<Seq<char>>,
    known: Set<Seq<char>>,
    disk: Seq<bool>,
    fetched: Seq<bool>,
)
    ensures
        known.subset_of(pool_run(paths, known, disk, fetched).0),
    decreases paths.len(),
{
    if paths.len() > 0 {
        let k2 = ledger_after_spec(known, paths[0], disk[0], fetched[0]);
        assert(known.subset_of(k2));
        lemma_pool_run_monotone(paths.drop_first(), k2, disk.drop_first(), fetched.drop_first());
    }
}

/// The ledger stays finite over a pool pass, and its size never decreases
/// within a run: every cycle ends with at least as many recorded paths.
pub proof fn lemma_pool_run_ledger_grows(
    paths: Seq<Seq<char>>,
    known: Set<Seq<char>>,
    disk: Seq<bool>,
    fetched: Seq<bool>,
)
    requires
        known.finite(),
    ensures
        pool_run(paths, known, disk, fetched).0.finite(),
        known.subset_of(pool_run(paths, known, disk, fetched).0),
        known.len() <= pool_run(paths, known, disk, fetched).0.len(),
    decreases paths.len(),
{
    broadcast use vstd::set::group_set_axioms;

    lemma_pool_run_monotone(paths, known, disk, fetched);
    if paths.len() > 0 {
        let k2 = ledger_after_spec(known, paths[0], disk[0], fetched[0]);
        lemma_pool_run_ledger_grows(
            paths.drop_first(),
            k2,
            disk.drop_first(),
            fetched.drop_first(),
        );
        assert(known.len() <= k2.len());
    }
}

/// After a pass, every path whose fetch succeeded (or that was skipped
/// while its fetch would have succeeded) stands in the ledger.
pub proof fn lemma_pool_run_covers_fetched(
    paths: Seq<Seq<char>>,
    known: Set<Seq<char>>,
    disk: Seq<bool>,
    fetched: Seq<bool>,
)
    requires
        disk.len() == paths.len(),
        fetched.len() == paths.len(),
    ensures
        forall|i: int|
            0 <= i < paths.len() && fetched[i] ==> pool_run(paths, known, disk, fetched).0.contains(
                #[trigger] paths[i],
            ),
    decreases paths.len(),
{
    if paths.len() > 0 {
        let k2 = ledger_after_spec(known, paths[0], disk[0], fetched[0]);
        lemma_pool_run_covers_fetched(
            paths.drop_first(),
            k2,
            disk.drop_first(),
            fetched.drop_first(),
        );
        lemma_pool_run_monotone(paths.drop_first(), k2, disk.drop_first(), fetched.drop_first());
        if fetched[0] {
            assert(k2.contains(paths[0]));
        }
        assert forall|i: int|
            0 <= i < paths.len() && fetched[i] implies pool_run(
            paths,
            known,
            disk,
            fetched,
        ).0.contains(#[trigger] paths[i]) by {
            if i > 0 {
                assert(paths.drop_first()[i - 1] == paths[i]);
                assert(fetched.drop_first()[i - 1] == fetched[i]);
            }
        }
    }
}

/// When every link whose fetch would succeed is already in the ledger, the
/// pass downloads nothing.
pub proof fn lemma_pool_run_no_downloads(
    paths: Seq<Seq<char>>,
    known: Set<Seq<char>>,
    disk: Seq<bool>,
    fetched: Seq<bool>,
)
    requires
        disk.len() == paths.len(),
        fetched.len() == paths.len(),
        forall|i: int| 0 <= i < paths.len() && fetched[i] ==> known.contains(#[trigger] paths[i]),
    ensures
        pool_run(paths, known, disk, fetched).1 == 0,
    decreases paths.len(),
{
    if paths.len() > 0 {
        let o = outcome_spec(known, paths[0], disk[0], fetched[0]);
        assert(o != LinkOutcome::Downloaded);
        let k2 = ledger_after_spec(known, paths[0], disk[0], fetched[0]);
        assert forall|i: int|
            0 <= i < paths.drop_first().len() && fetched.drop_first()[i] implies k2.contains(
            #[trigger] paths.drop_first()[i],
        ) by {
            assert(paths.drop_first()[i] == paths[i + 1]);
            assert(fetched.drop_first()[i] == fetched[i + 1]);
        }
        lemma_pool_run_no_downloads(
            paths.drop_first(),
            k2,
            disk.drop_first(),
            fetched.drop_first(),
        );
    }
}

/// Running the pool twice over the same links with the same per-link fetch
/// outcomes and a ledger carried over: the second pass downloads nothing,
/// whatever the disk reports in between.
pub proof fn lemma_second_cycle_downloads_nothing(
    paths: Seq<Seq<char>>,
    known0: Set<Seq<char>>,
    disk1: Seq<bool>,
    disk2: Seq<bool>,
    fetched: Seq<bool>,
)
    requires
        disk1.len() == paths.len(),
        disk2.len() == paths.len(),
        fetched.len() == paths.len(),
    ensures
        pool_run(paths, pool_run(paths, known0, disk1, fetched).0, disk2, fetched).1 == 0,
{
    lemma_pool_run_covers_fetched(paths, known0, disk1, fetched);
    lemma_pool_run_no_downloads(paths, pool_run(paths, known0, disk1, fetched).0, disk2, fetched);
}

} // verus!
