//! Verified core of a thread-media downloader: link extraction from page
//! text, a de-duplication ledger, the per-link worker and pool decisions,
//! and the poll scheduler's control logic.

mod cycle;
mod extract;
mod ledger;
mod pool;
mod sched;
mod storage;
mod thread_info;
mod worker;

pub use cycle::lemma_run_once_idempotent;
pub use cycle::page_links;
pub use cycle::page_view;
pub use cycle::pair_paths;
pub use cycle::run_once;

pub use pool::PoolEvent;
pub use pool::WorkerPool;
pub use pool::lemma_concurrency_bound;
pub use pool::pool_after;
pub use pool::pool_step;

pub use sched::ScheduleStep;
pub use sched::cycles_run;
pub use sched::lemma_stop_iff_budget_spent;
pub use sched::lemma_zero_budget_one_cycle;
pub use sched::minutes_to_millis;
pub use sched::next_step;
pub use sched::next_step_spec;

pub use storage::dec_digits;
pub use storage::lemma_dec_digits_value;
pub use storage::storage_directory;
pub use storage::u32_to_dec;

pub use worker::LinkOutcome;
pub use worker::SyncCycleOutcome;
pub use worker::WorkerAction;
pub use worker::cycle_paths;
pub use worker::decide_spec;
pub use worker::ledger_after_spec;
pub use worker::lemma_pool_run_ledger_grows;
pub use worker::lemma_second_cycle_downloads_nothing;
pub use worker::local_path;
pub use worker::normalize_url;
pub use worker::normalized_url;
pub use worker::outcome_spec;
pub use worker::path_join;
pub use worker::pool_run;
pub use worker::process_link;
pub use worker::run_cycle;
pub use worker::worker_apply;
pub use worker::worker_decide;

pub use ledger::DedupLedger;
pub use ledger::mark_as_downloaded;

pub use thread_info::Thread;
pub use thread_info::digits_val;
pub use thread_info::get_thread_info;
pub use thread_info::id_part;
pub use thread_info::parse_thread_info;
pub use thread_info::piece;
pub use thread_info::valid_thread_url;

pub use extract::Link;
pub use extract::dedup_pairs;
pub use extract::lemma_dedup_pairs_distinct;
pub use extract::lemma_extract_links_empty;
pub use extract::get_image_links;
pub use extract::link_match;
pub use extract::link_pairs;
pub use extract::scan_links;
