//! The sync cycle controller: one full pass. The page text (already
//! fetched, or `None` when its fetch failed) is turned into links, and the
//! worker pool runs over them to completion.

use vstd::prelude::*;

use crate::extract::Link;
use crate::extract::dedup_pairs;
use crate::extract::get_image_links;
use crate::extract::link_pairs;
use crate::extract::scan_links;
use crate::ledger::DedupLedger;
use crate::worker::SyncCycleOutcome;
use crate::worker::cycle_paths;
use crate::worker::lemma_second_cycle_downloads_nothing;
use crate::worker::path_join;
use crate::worker::pool_run;
use crate::worker::run_cycle;

verus! {

/// The page text a cycle saw: `None` when the fetch failed.
pub open spec fn page_view(page: Option<&String>) -> Option<Seq<char>> {
    match page {
        Some(t) => Some(t@),
        None => None,
    }
}

/// The (locator, name) pairs a cycle's page yields: the de-duplicated
/// scan of its text; a page that could not be fetched yields none.
pub open spec fn page_links(page: Option<Seq<char>>) -> Seq<(Seq<char>, Seq<char>)> {
    match page {
        Some(t) => dedup_pairs(scan_links(t, 0)),
        None => Seq::empty(),
    }
}

/// The candidate local paths of those pairs under `dir`.
pub open spec fn pair_paths(dir: Seq<char>, pairs: Seq<(Seq<char>, Seq<char>)>) -> Seq<Seq<char>> {
    pairs.map_values(|pr: (Seq<char>, Seq<char>)| path_join(dir, pr.1))
}

/// One full pass: extract the links of the fetched page text (`None`,
/// a failed page fetch, degrades to zero links rather than failing the
/// run), then run the worker pool over all of them. `on_disk[i]` and
/// `fetch_ok[i]` carry what the outside world reported for link `i`.
pub fn run_once(
    page: Option<&String>,
    directory: &String,
    ledger: &mut DedupLedger,
    on_disk: &Vec<bool>,
    fetch_ok: &Vec<bool>,
    concurrency: usize,
) -> (out: SyncCycleOutcome)
    requires
        old(ledger)@.finite(),
        on_disk@.len() == page_links(page_view(page)).len(),
        fetch_ok@.len() == page_links(page_view(page)).len(),
        concurrency >= 1,
    ensures
        final(ledger)@.finite(),
        old(ledger)@.subset_of(final(ledger)@),
        ({
            let r = pool_run(
                pair_paths(directory@, page_links(page_view(page))),
                old(ledger)@,
                on_disk@,
                fetch_ok@,
            );
            final(ledger)@ == r.0 && out.downloaded == r.1 && out.skipped == r.2 && out.failed
                == r.3
        }),
        out.links_seen == page_links(page_view(page)).len(),
        out.downloaded + out.skipped + out.failed == page_links(page_view(page)).len(),
        out.elapsed_ms == 0,
{
    match page {
        Some(t) => {
            let links = get_image_links(t.as_str());
            proof {
                assert(link_pairs(links@) == page_links(page_view(page)));
                assert(cycle_paths(directory@, links@) =~= pair_paths(
                    directory@,
                    link_pairs(links@),
                ));
            }
            run_cycle(&links, directory, ledger, on_disk, fetch_ok, concurrency)
        },
        None => {
            let links: Vec<Link> = Vec::new();
            proof {
                assert(cycle_paths(directory@, links@) =~= pair_paths(
                    directory@,
                    page_links(page_view(page)),
                ));
            }
            run_cycle(&links, directory, ledger, on_disk, fetch_ok, concurrency)
        },
    }
}

/// Two passes in succession over an unchanged page, the ledger carried
/// over, the per-link fetch outcomes unchanged: the second pass downloads
/// nothing, whatever the disk reports in between.
pub proof fn lemma_run_once_idempotent(
    page: Option<Seq<char>>,
    dir: Seq<char>,
    known0: Set<Seq<char>>,
    disk1: Seq<bool>,
    disk2: Seq<bool>,
    fetched: Seq<bool>,
)
    requires
        disk1.len() == page_links(page).len(),
        disk2.len() == page_links(page).len(),
        fetched.len() == page_links(page).len(),
    ensures
        ({
            let paths = pair_paths(dir, page_links(page));
            pool_run(paths, pool_run(paths, known0, disk1, fetched).0, disk2, fetched).1 == 0
        }),
{
    lemma_second_cycle_downloads_nothing(
        pair_paths(dir, page_links(page)),
        known0,
        disk1,
        disk2,
        fetched,
    );
}

} // verus!
