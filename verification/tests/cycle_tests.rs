use chan_downloader::DedupLedger;
use chan_downloader::Link;
use chan_downloader::LinkOutcome;
use chan_downloader::WorkerAction;
use chan_downloader::get_image_links;
use chan_downloader::local_path;
use chan_downloader::mark_as_downloaded;
use chan_downloader::normalize_url;
use chan_downloader::process_link;
use chan_downloader::run_cycle;
use chan_downloader::run_once;
use chan_downloader::worker_apply;
use chan_downloader::worker_decide;

#[test]
fn ledger_contains_after_record() {
    let mut ledger = DedupLedger::new();
    let path = String::from("downloads/wg/111.jpg");
    assert!(!ledger.contains(&path));
    ledger.record(&path);
    assert!(ledger.contains(&path));
    assert_eq!(ledger.len(), 1);
}

#[test]
fn ledger_record_is_idempotent() {
    let mut ledger = DedupLedger::new();
    let path = String::from("downloads/wg/111.jpg");
    ledger.record(&path);
    ledger.record(&path);
    assert_eq!(ledger.len(), 1);
    let other = String::from("downloads/wg/222.png");
    ledger.record(&other);
    assert_eq!(ledger.len(), 2);
}

#[test]
fn ledger_size_never_decreases() {
    let mut ledger = DedupLedger::new();
    let mut last = ledger.len();
    for name in ["a.jpg", "b.jpg", "a.jpg", "c.jpg", "b.jpg"] {
        let path = local_path("downloads/wg", name);
        mark_as_downloaded(&mut ledger, &path);
        let now = ledger.len();
        assert!(now >= last);
        last = now;
    }
    assert_eq!(ledger.len(), 3);
}

#[test]
fn local_path_joins_with_one_slash() {
    assert_eq!(local_path("downloads/wg/6872254", "111.jpg"), "downloads/wg/6872254/111.jpg");
}

#[test]
fn normalize_url_completes_protocol_relative() {
    assert_eq!(normalize_url("//i.4cdn.org/wg/111.jpg"), "https://i.4cdn.org/wg/111.jpg");
    assert_eq!(normalize_url("https://i.4cdn.org/wg/111.jpg"), "https://i.4cdn.org/wg/111.jpg");
    assert_eq!(normalize_url(""), "");
}

#[test]
fn worker_decides_ledger_then_disk_then_fetch() {
    let mut ledger = DedupLedger::new();
    let known = String::from("d/known.jpg");
    let fresh = String::from("d/fresh.jpg");
    ledger.record(&known);
    assert_eq!(worker_decide(&ledger, &known, false), WorkerAction::SkipKnown);
    assert_eq!(worker_decide(&ledger, &known, true), WorkerAction::SkipKnown);
    assert_eq!(worker_decide(&ledger, &fresh, true), WorkerAction::SkipExisting);
    assert_eq!(worker_decide(&ledger, &fresh, false), WorkerAction::Fetch);
}

#[test]
fn worker_apply_records_downloads_and_existing_files() {
    let mut ledger = DedupLedger::new();
    let p1 = String::from("d/1.jpg");
    let p2 = String::from("d/2.jpg");
    let p3 = String::from("d/3.jpg");
    assert_eq!(worker_apply(&mut ledger, &p1, WorkerAction::Fetch, true), LinkOutcome::Downloaded);
    assert!(ledger.contains(&p1));
    assert_eq!(worker_apply(&mut ledger, &p2, WorkerAction::SkipExisting, false), LinkOutcome::Skipped);
    assert!(ledger.contains(&p2));
    assert_eq!(worker_apply(&mut ledger, &p3, WorkerAction::SkipKnown, false), LinkOutcome::Skipped);
    assert!(!ledger.contains(&p3));
}

#[test]
fn failed_fetch_leaves_ledger_untouched_for_retry() {
    let mut ledger = DedupLedger::new();
    let path = String::from("d/1.jpg");
    assert_eq!(process_link(&mut ledger, &path, false, false), LinkOutcome::Failed);
    assert!(!ledger.contains(&path));
    // the retry in a later cycle can then succeed
    assert_eq!(process_link(&mut ledger, &path, false, true), LinkOutcome::Downloaded);
    assert!(ledger.contains(&path));
}

#[test]
fn one_present_one_new_link_with_two_workers() {
    // two links, one already present on disk, one new
    let links = vec![
        Link { url: String::from("//i.4cdn.org/wg/111.jpg"), name: String::from("111.jpg") },
        Link { url: String::from("//i.4cdn.org/wg/222.jpg"), name: String::from("222.jpg") },
    ];
    let directory = String::from("downloads/wg/6872254");
    let mut ledger = DedupLedger::new();
    let on_disk = vec![true, false];
    let fetch_ok = vec![true, true];
    let out = run_cycle(&links, &directory, &mut ledger, &on_disk, &fetch_ok, 2);
    assert_eq!(out.links_seen, 2);
    assert_eq!(out.downloaded, 1);
    assert_eq!(out.skipped, 1);
    assert_eq!(out.failed, 0);
    assert!(ledger.contains(&String::from("downloads/wg/6872254/111.jpg")));
    assert!(ledger.contains(&String::from("downloads/wg/6872254/222.jpg")));
}

#[test]
fn cycle_counts_failures_without_aborting() {
    let links = vec![
        Link { url: String::from("//i.4cdn.org/wg/111.jpg"), name: String::from("111.jpg") },
        Link { url: String::from("//i.4cdn.org/wg/222.jpg"), name: String::from("222.jpg") },
        Link { url: String::from("//i.4cdn.org/wg/333.jpg"), name: String::from("333.jpg") },
    ];
    let directory = String::from("d");
    let mut ledger = DedupLedger::new();
    let on_disk = vec![false, false, false];
    let fetch_ok = vec![true, false, true];
    let out = run_cycle(&links, &directory, &mut ledger, &on_disk, &fetch_ok, 2);
    assert_eq!(out.links_seen, 3);
    assert_eq!(out.downloaded, 2);
    assert_eq!(out.skipped, 0);
    assert_eq!(out.failed, 1);
    // the failed link is not recorded, the successful ones are
    assert!(ledger.contains(&String::from("d/111.jpg")));
    assert!(!ledger.contains(&String::from("d/222.jpg")));
    assert!(ledger.contains(&String::from("d/333.jpg")));
}

#[test]
fn run_once_extracts_and_processes_page_links() {
    let page = String::from(
        r#"
        <a href="//i.4cdn.org/wg/111.jpg"></a>
        <a href="//i.4cdn.org/wg/111.jpg"></a>
        <a href="//i.4cdn.org/wg/222.png"></a>
        "#,
    );
    let directory = String::from("downloads/wg/6872254");
    let mut ledger = DedupLedger::new();
    let on_disk = vec![false, false];
    let fetch_ok = vec![true, true];
    let out = run_once(Some(&page), &directory, &mut ledger, &on_disk, &fetch_ok, 2);
    assert_eq!(out.links_seen, 2);
    assert_eq!(out.downloaded, 2);
    assert_eq!(out.skipped, 0);
    assert_eq!(out.failed, 0);
}

#[test]
fn run_once_degrades_failed_page_fetch_to_zero_links() {
    let directory = String::from("downloads/wg/6872254");
    let mut ledger = DedupLedger::new();
    let on_disk: Vec<bool> = vec![];
    let fetch_ok: Vec<bool> = vec![];
    let out = run_once(None, &directory, &mut ledger, &on_disk, &fetch_ok, 2);
    assert_eq!(out.links_seen, 0);
    assert_eq!(out.downloaded, 0);
    assert_eq!(out.skipped, 0);
    assert_eq!(out.failed, 0);
}

#[test]
fn second_pass_over_unchanged_page_downloads_nothing() {
    let page = String::from(
        r#"
        <a href="//i.4cdn.org/wg/111.jpg"></a>
        <a href="//i.4cdn.org/wg/222.png"></a>
        <a href="//i.4cdn.org/wg/333.gif"></a>
        "#,
    );
    let directory = String::from("downloads/wg/6872254");
    let mut ledger = DedupLedger::new();
    let on_disk = vec![false, true, false];
    let fetch_ok = vec![true, true, false];
    let first = run_once(Some(&page), &directory, &mut ledger, &on_disk, &fetch_ok, 2);
    assert_eq!(first.downloaded, 1);
    assert_eq!(first.skipped, 1);
    assert_eq!(first.failed, 1);
    // unchanged page, ledger carried over, same fetch outcomes
    let second = run_once(Some(&page), &directory, &mut ledger, &on_disk, &fetch_ok, 2);
    assert_eq!(second.downloaded, 0);
    assert_eq!(second.links_seen, 3);
}
