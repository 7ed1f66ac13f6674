use chan_downloader::get_thread_info;
use chan_downloader::parse_thread_info;
use chan_downloader::storage_directory;
use chan_downloader::u32_to_dec;

#[test]
fn it_gets_4chan_thread_info() {
    let url = "https://boards.4chan.org/wg/thread/6872254";
    let thread = get_thread_info(url);
    assert_eq!(thread.board, "wg");
    assert_eq!(thread.id, 6872254);
}

#[test]
fn it_gets_4plebs_thread_info() {
    let url = "https://archive.4plebs.org/x/thread/32661196";
    let thread = get_thread_info(url);
    assert_eq!(thread.board, "x");
    assert_eq!(thread.id, 32661196);
}

#[test]
fn fragment_is_cut_from_the_id() {
    let thread = get_thread_info("https://boards.4chan.org/wg/thread/6872254#p6872300");
    assert_eq!(thread.board, "wg");
    assert_eq!(thread.id, 6872254);
}

#[test]
fn parse_accepts_well_formed_locator() {
    let t = parse_thread_info("https://boards.4chan.org/wg/thread/6872254").unwrap();
    assert_eq!(t.board, "wg");
    assert_eq!(t.id, 6872254);
}

#[test]
fn parse_rejects_too_few_segments() {
    assert!(parse_thread_info("https://boards.4chan.org/wg").is_none());
    assert!(parse_thread_info("nonsense").is_none());
    assert!(parse_thread_info("").is_none());
}

#[test]
fn parse_rejects_non_numeric_id() {
    assert!(parse_thread_info("https://boards.4chan.org/wg/thread/abc").is_none());
    assert!(parse_thread_info("https://boards.4chan.org/wg/thread/12a4").is_none());
}

#[test]
fn parse_rejects_empty_board_or_id() {
    assert!(parse_thread_info("https:////thread/123").is_none());
    assert!(parse_thread_info("https://boards.4chan.org/wg/thread/#p1").is_none());
}

#[test]
fn parse_rejects_overlarge_id() {
    assert!(parse_thread_info("https://boards.4chan.org/wg/thread/99999999999999999999").is_none());
    // largest value that still fits
    let t = parse_thread_info("https://boards.4chan.org/wg/thread/4294967295").unwrap();
    assert_eq!(t.id, u32::MAX);
    assert!(parse_thread_info("https://boards.4chan.org/wg/thread/4294967296").is_none());
}

#[test]
fn decimal_rendering_round_trips() {
    assert_eq!(u32_to_dec(0), "0");
    assert_eq!(u32_to_dec(7), "7");
    assert_eq!(u32_to_dec(6872254), "6872254");
    assert_eq!(u32_to_dec(u32::MAX), "4294967295");
}

#[test]
fn storage_directory_joins_root_board_and_id() {
    let thread = get_thread_info("https://boards.4chan.org/wg/thread/6872254");
    let dir = storage_directory("downloads", &thread);
    assert_eq!(dir, "downloads/wg/6872254");
}
