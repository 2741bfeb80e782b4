use webtable::domain::{anchor_row_key, page_row_key, reverse_domain_key};
use webtable::webtable::{page_writes, Anchor, PageTable, Webtable};

#[test]
fn reverses_domain_labels() {
    assert_eq!(reverse_domain_key("www.example.com"), "com.example.www");
    assert_eq!(reverse_domain_key("localhost"), "localhost");
    assert_eq!(reverse_domain_key(""), "");
    assert_eq!(reverse_domain_key("a..b."), ".b..a");
    assert_eq!(reverse_domain_key("ö.ü"), "ü.ö");
}

#[test]
fn page_row_key_drops_https_scheme() {
    assert_eq!(page_row_key("https://news.ycombinator.com"), "com.ycombinator.news");
    assert_eq!(page_row_key("https://https://vedur.is"), "is.vedur");
    assert_eq!(page_row_key("http://vedur.is"), "is.http://vedur");
}

#[test]
fn anchor_keys_of_links() {
    let url = "https://vedur.is";
    assert_eq!(anchor_row_key(url, "/about/us").as_deref(), Some("is.vedur/about/us"));
    assert_eq!(anchor_row_key(url, "https://www.example.com/x?y=1").as_deref(), Some("com.example.www/x?y=1"));
    assert_eq!(anchor_row_key(url, "http://example.org").as_deref(), Some("org.example/"));
    assert_eq!(anchor_row_key(url, "page.html").as_deref(), Some("is.vedur/page.html"));
    assert_eq!(anchor_row_key(url, "mailto:a@b.is"), None);
    assert_eq!(anchor_row_key(url, "tel:123"), None);
    assert_eq!(anchor_row_key(url, "#top"), None);
}

#[test]
fn webtable_stores_page_metadata_and_links() {
    let keyspace = fjall::Config::new("/tmp/webtable_tests/webtable").temporary(true).open().unwrap();
    let table = Webtable::new(keyspace).unwrap();
    let html = "<html lang=\"en\"><a href=\"/a\">A</a></html>";
    let anchors = vec![
        Anchor { href: "/a".to_string(), text: "A".to_string() },
        Anchor { href: "mailto:x@y.z".to_string(), text: "mail".to_string() },
        Anchor { href: "https://example.com/b".to_string(), text: "B".to_string() },
    ];
    table.insert("https://vedur.is", html, 1700, Some("en"), &anchors).unwrap();

    let meta = table.iter_metadata().unwrap();
    assert_eq!(meta.len(), 2);
    assert_eq!(meta[0].row_key(), "is.vedur");
    assert_eq!(meta[0].column_family(), "checksum");
    assert_eq!(meta[0].timestamp(), 1700);
    assert_eq!(meta[0].value(), &md5::compute(html).0[..]);
    assert_eq!(meta[1].column_family(), "language");
    assert_eq!(meta[1].value(), b"EN");

    let contents = table.iter_contents().unwrap();
    assert_eq!(contents.len(), 1);
    assert_eq!(contents[0].value(), html.as_bytes());

    assert_eq!(table.iter_primary().unwrap().len(), 2);
    let to_b = table.iter_anchors_to_page("com.example/b").unwrap();
    assert_eq!(to_b.len(), 1);
    assert_eq!(to_b[0].column_family(), "anchor");
    assert_eq!(to_b[0].column_qualifier(), "https://vedur.is");
    assert_eq!(to_b[0].value(), b"B");
    assert_eq!(table.iter_anchors_to_page("").unwrap().len(), 2);
    assert_eq!(table.iter_anchors_to_page("org.none/").unwrap().len(), 0);
}

#[test]
fn link_cells_skip_non_page_links_and_keep_order() {
    let anchors = vec![
        Anchor { href: "#top".to_string(), text: "top".to_string() },
        Anchor { href: "/x".to_string(), text: "X".to_string() },
        Anchor { href: "tel:1".to_string(), text: "call".to_string() },
        Anchor { href: "https://a.b.c/d/e".to_string(), text: "E".to_string() },
    ];
    let links = webtable::webtable::link_cells("https://vedur.is", &anchors);
    assert_eq!(
        links,
        vec![
            ("is.vedur/x".to_string(), "X".to_string()),
            ("c.b.a/d/e".to_string(), "E".to_string()),
        ]
    );
    assert!(webtable::webtable::link_cells("https://vedur.is", &vec![]).is_empty());
}

#[test]
fn page_writes_list_every_cell_of_a_page() {
    let html = "<html><body><a href=\"/item?id=1\">x</a></body></html>";
    let anchors = vec![
        Anchor { href: "/item?id=1".to_string(), text: "x".to_string() },
        Anchor { href: "#top".to_string(), text: "skip".to_string() },
    ];
    let url = "https://news.ycombinator.com";
    let ws = page_writes(url, html, 77, Some("en"), &anchors);
    assert_eq!(ws.len(), 4);
    assert_eq!(ws[0].table, PageTable::Meta);
    assert_eq!(ws[0].row_key, "com.ycombinator.news");
    assert_eq!(ws[0].column_family, "language");
    assert_eq!(ws[0].timestamp, None);
    assert_eq!(ws[0].value, b"EN".to_vec());
    assert_eq!(ws[1].table, PageTable::Contents);
    assert_eq!(ws[1].column_family, "contents");
    assert_eq!(ws[1].timestamp, Some(77));
    assert_eq!(ws[1].value, html.as_bytes().to_vec());
    assert_eq!(ws[2].table, PageTable::Meta);
    assert_eq!(ws[2].column_family, "checksum");
    assert_eq!(ws[2].value, md5::compute(html).0.to_vec());
    assert_eq!(ws[3].table, PageTable::Links);
    assert_eq!(ws[3].row_key, "com.ycombinator.news/item?id=1");
    assert_eq!(ws[3].column_family, "anchor");
    assert_eq!(ws[3].column_qualifier, url);
    assert_eq!(ws[3].timestamp, Some(77));
    assert_eq!(ws[3].value, b"x".to_vec());
    assert_eq!(page_writes(url, html, 77, None, &vec![]).len(), 2);
}

#[test]
fn webtable_end_to_end_example_page() {
    let keyspace = fjall::Config::new("/tmp/webtable_tests/webtable_example").temporary(true).open().unwrap();
    let table = Webtable::new(keyspace).unwrap();
    let url = "https://news.ycombinator.com";
    let html = "<html><body><a href=\"/item?id=1\">x</a></body></html>";
    let anchors = vec![Anchor { href: "/item?id=1".to_string(), text: "x".to_string() }];
    table.insert(url, html, 5, None, &anchors).unwrap();
    let links = table.iter_anchors_to_page("com.ycombinator.news/item?id=1").unwrap();
    assert_eq!(links.len(), 1);
    assert_eq!(links[0].row_key(), "com.ycombinator.news/item?id=1");
    assert_eq!(links[0].column_family(), "anchor");
    assert_eq!(links[0].column_qualifier(), url);
    assert_eq!(links[0].timestamp(), 5);
    assert_eq!(links[0].value(), b"x");
    let contents = table.iter_contents().unwrap();
    assert_eq!(contents[0].row_key(), "com.ycombinator.news");
    assert_eq!(table.iter_metadata().unwrap().len(), 1);
}
