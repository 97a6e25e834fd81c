use chess_ai_rust::tablebase::{anchor_hrefs, tablebase_files, text_order};

#[test]
fn test_tablebase_files_sorted_unique_and_filtered() {
    let html = r#"<html><body>
        <a href="KRvK.rtbz">KRvK.rtbz</a>
        <a href="KQvK.rtbw">KQvK.rtbw</a>
        <a href="README.txt">readme</a>
        <a>no link</a>
        <a href="KQvK.rtbw">again</a>
        <a href="KBNvK.rtbw">KBNvK</a>
        </body></html>"#;
    assert_eq!(anchor_hrefs(html).len(), 6);
    assert_eq!(
        tablebase_files(html),
        vec!["KBNvK.rtbw".to_string(), "KQvK.rtbw".to_string(), "KRvK.rtbz".to_string()]
    );
    assert!(tablebase_files("<p>nothing</p>").is_empty());
}

#[test]
fn test_text_order_is_string_order() {
    assert!(text_order("KQvK", "KRvK") < 0);
    assert!(text_order("KQ", "KQvK") < 0);
    assert_eq!(text_order("abc", "abc"), 0);
    assert!(text_order("b", "a") > 0);
}
