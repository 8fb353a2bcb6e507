use hsr_alert_bot::scrape::{collect_codes, scrape_codes, ScrapeError};

#[test]
fn codes_are_read_from_the_container() {
    let page = "<html><body><div class=\"intro\"><div>NOPE</div></div>\
        <div class=\"codes\"><div>ABC123<span>new</span></div><div></div><div>XYZ789</div></div>\
        <div class=\"codes\"><div>LATER</div></div></body></html>";
    assert_eq!(
        scrape_codes(page),
        Ok(vec!["ABC123".to_string(), "XYZ789".to_string()])
    );
}

#[test]
fn page_without_container_fails() {
    assert_eq!(
        scrape_codes("<html><body><p>nothing</p></body></html>"),
        Err(ScrapeError::MissingContainer)
    );
}

#[test]
fn collect_keeps_present_texts_in_order() {
    let texts = vec![
        Some("A".to_string()),
        None,
        Some("B".to_string()),
        None,
    ];
    assert_eq!(collect_codes(texts), vec!["A".to_string(), "B".to_string()]);
    assert!(collect_codes(vec![None]).is_empty());
}
