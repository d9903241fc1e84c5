use nola::search::extract_info_hash;

#[test]
fn extract_info_hash_handles_leading_scheme() {
    // hash as the first magnet parameter (the common case)
    assert_eq!(
        extract_info_hash("magnet:?xt=urn:btih:ABCDEF123456&dn=Some%20Title&tr=udp%3A%2F%2Ffoo"),
        Some("abcdef123456".to_string())
    );
    // hash not first
    assert_eq!(
        extract_info_hash("magnet:?dn=Some%20Title&xt=urn:btih:ABCDEF123456"),
        Some("abcdef123456".to_string())
    );
    assert_eq!(extract_info_hash("magnet:?dn=No%20Hash"), None);
}
