use chan_downloader::Link;
use chan_downloader::get_image_links;

#[test]
fn it_gets_4chan_image_links() {
    let links_iter = get_image_links(
        r#"
            <a href="//i.4cdn.org/wg/1489266570954.jpg" target="_blank">stickyop.jpg</a>
            <a href="//i.4cdn.org/wg/1489266570954.jpg" target="_blank">stickyop.jpg</a>
        "#,
    );
    for link in links_iter {
        assert_eq!(link.url, "//i.4cdn.org/wg/1489266570954.jpg");
        assert_eq!(link.name, "1489266570954.jpg");
    }
}

#[test]
fn it_gets_4plebs_image_links() {
    let links_iter = get_image_links(
        r#"
            <a href="https://img.4plebs.org/boards/x/image/1660/66/1660662319160984.png" target="_blank"></a>
            <a href="https://img.4plebs.org/boards/x/image/1660/66/1660662319160984.png" target="_blank"></a>
        "#,
    );
    for link in links_iter {
        assert_eq!(link.url, "//img.4plebs.org/boards/x/image/1660/66/1660662319160984.png");
        assert_eq!(link.name, "1660662319160984.png");
    }
}

#[test]
fn repeated_href_collapses_to_one_link() {
    let links = get_image_links(
        r#"...href="//i.4cdn.org/wg/111.jpg"...href="//i.4cdn.org/wg/111.jpg"..."#,
    );
    assert_eq!(links.len(), 1);
    assert_eq!(links[0].url, "//i.4cdn.org/wg/111.jpg");
    assert_eq!(links[0].name, "111.jpg");
}

#[test]
fn no_matches_yields_empty() {
    let links: Vec<Link> = get_image_links("no media links anywhere in this text");
    assert!(links.is_empty());
}

#[test]
fn empty_page_yields_empty() {
    let links = get_image_links("");
    assert!(links.is_empty());
}

#[test]
fn distinct_links_keep_page_order() {
    let links = get_image_links(
        r#"
            <a href="//i.4cdn.org/wg/222.png"></a>
            <a href="//is2.4cdn.org/wg/111.jpg"></a>
            <a href="//i.4cdn.org/wg/222.png"></a>
        "#,
    );
    assert_eq!(links.len(), 2);
    assert_eq!(links[0].url, "//i.4cdn.org/wg/222.png");
    assert_eq!(links[0].name, "222.png");
    assert_eq!(links[1].url, "//is2.4cdn.org/wg/111.jpg");
    assert_eq!(links[1].name, "111.jpg");
}

#[test]
fn webm_extension_is_accepted() {
    let links = get_image_links(r#"href="//i.4chan.org/gif/123456.webm""#);
    assert_eq!(links.len(), 1);
    assert_eq!(links[0].url, "//i.4chan.org/gif/123456.webm");
    assert_eq!(links[0].name, "123456.webm");
}

#[test]
fn unknown_extension_is_rejected() {
    let links = get_image_links(r#"href="//i.4cdn.org/wg/123456.tiff""#);
    assert!(links.is_empty());
}

#[test]
fn non_numeric_file_name_is_rejected() {
    let links = get_image_links(r#"href="//i.4cdn.org/wg/sticky.jpg""#);
    assert!(links.is_empty());
}

#[test]
fn unknown_domain_is_rejected() {
    let links = get_image_links(r#"href="//i.4grams.org/wg/123.jpg""#);
    assert!(links.is_empty());
}

#[test]
fn too_many_path_segments_are_rejected() {
    let links = get_image_links(r#"href="//img.4plebs.org/a/b/c/1/2/3/123.jpg""#);
    assert!(links.is_empty());
}

#[test]
fn deep_numeric_segments_need_numeric_tail() {
    // a fourth, non-numeric segment cannot stand before the file name
    let links = get_image_links(r#"href="//img.4plebs.org/boards/x/image/word/123.jpg""#);
    assert!(links.is_empty());
}
