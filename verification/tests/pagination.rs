//! Pagination-header parsing and query-string encoding.

use rfcbot::pagination::{next_page, serialize_qp};

#[test]
fn next_page_found() {
    let h = "<https://example.test/items?page=2>; rel=\"next\", \
             <https://example.test/items?page=9>; rel=\"last\"";
    assert_eq!(next_page(h), Some("https://example.test/items?page=2".to_string()));
}

#[test]
fn next_page_absent() {
    let h = "<https://example.test/items?page=1>; rel=\"first\", \
             <https://example.test/items?page=9>; rel=\"last\"";
    assert_eq!(next_page(h), None);
}

#[test]
fn next_page_skips_malformed_links() {
    let h = "nonsense, <https://example.test/items?page=3>; rel=\"next\"";
    assert_eq!(next_page(h), Some("https://example.test/items?page=3".to_string()));
}

#[test]
fn serialize_qp_joins_pairs() {
    let params = vec![
        ("direction".to_string(), "asc".to_string()),
        ("per_page".to_string(), "100".to_string()),
    ];
    assert_eq!(serialize_qp(Some(&params)), "?direction=asc&per_page=100");
    assert_eq!(serialize_qp(None), "");
    let empty: Vec<(String, String)> = Vec::new();
    assert_eq!(serialize_qp(Some(&empty)), "?");
}
