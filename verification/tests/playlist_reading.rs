use nola::attributes::metadata_comma;
use nola::playlist::{parse_m3u, remote_url, stream_channel_of};
use nola::text::has_tag;

const BASE: &str = "https://example.com/lists/tv.m3u";

#[test]
fn header_is_case_insensitive_and_blank_lines_are_skipped() {
    let text = "\n  \r\n#extm3u x-tvg-url=\"a\"\r\n\r\n#extinf:-1,One\r\nhttp://h/one\r\n";
    let channels = parse_m3u(text, "id", BASE).unwrap();
    assert_eq!(channels.len(), 1);
    assert_eq!(channels[0].name, "One");
    assert_eq!(channels[0].url, "http://h/one");
    assert_eq!(channels[0].source_id, "id");
}

#[test]
fn error_messages_are_exact() {
    assert_eq!(
        parse_m3u("hello\n#EXTM3U\n", "s", BASE).unwrap_err(),
        "This is not an M3U playlist."
    );
    assert_eq!(parse_m3u("", "s", BASE).unwrap_err(), "This is not an M3U playlist.");
    assert_eq!(
        parse_m3u("#EXTM3U\n#EXTINF:-1,A\nftp://a/b\n", "s", BASE).unwrap_err(),
        "The playlist has no playable channels."
    );
    assert_eq!(
        parse_m3u("#EXTM3U\n#EXT-X-STREAM-INF:BANDWIDTH=1\nlow.m3u8\n", "s", "/tmp/x.m3u8").unwrap_err(),
        "This is a single HLS stream, not a channel playlist."
    );
}

#[test]
fn numbers_unnamed_channels_by_position() {
    let text = "#EXTM3U\nhttp://a/1\n#EXTINF:-1,\nhttp://a/2\n#EXTINF:-1 tvg-name=\"\",\nhttp://a/3\n";
    let channels = parse_m3u(text, "s", BASE).unwrap();
    assert_eq!(channels.len(), 3);
    assert_eq!(channels[0].name, "Channel 1");
    assert_eq!(channels[1].name, "Channel 2");
    assert_eq!(channels[2].name, "Channel 3");
    let mut many = String::from("#EXTM3U\n");
    for i in 0..12 {
        many.push_str(&format!("http://a/{}\n", i));
    }
    let channels = parse_m3u(&many, "s", BASE).unwrap();
    assert_eq!(channels[11].name, "Channel 12");
}

#[test]
fn attribute_values_quoted_and_bare() {
    let text = "#EXTM3U\n#EXTINF:-1 TVG-ID = 'x, y' tvg-logo=L group-title=Sports,Title\nrtsp://cam/1\n\
        #EXTINF:-1 tvg-logo=\"unterminated group-title=Sports,Title\nrtsp://cam/2\n";
    let channels = parse_m3u(text, "s", BASE).unwrap();
    assert_eq!(channels.len(), 2);
    // The key is lower-cased; spaces around `=` are allowed; a quoted value keeps its comma.
    assert_eq!(channels[0].tvg_id, "x, y");
    assert_eq!(channels[0].logo, "L");
    assert_eq!(channels[0].group, "Sports");
    assert_eq!(channels[0].name, "Title");
    // A quote without its closing quote starts a bare value, and hides the
    // comma after it, so the entry has no title.
    assert_eq!(channels[1].logo, "\"unterminated");
    assert_eq!(channels[1].group, "Sports,Title");
    assert_eq!(channels[1].name, "Channel 2");
}

#[test]
fn group_prefers_attribute_then_extgrp() {
    let text = "#EXTM3U\n#EXTGRP:Kids\n#EXTINF:-1 group-title=\"News\",A\nhttp://a/1\n#EXTGRP:  Kids  \n#EXTINF:-1,B\nhttp://a/2\n#EXTINF:-1,C\nhttp://a/3\n";
    let channels = parse_m3u(text, "s", BASE).unwrap();
    assert_eq!(channels[0].group, "News");
    assert_eq!(channels[1].group, "Kids");
    assert_eq!(channels[2].group, "Uncategorized");
}

#[test]
fn relative_addresses_need_a_remote_playlist() {
    let text = "#EXTM3U\n#EXTINF:-1,A\nrelative.m3u8\n#EXTINF:-1,B\nudp://239.0.0.1:1234\n";
    let channels = parse_m3u(text, "s", "/home/user/list.m3u").unwrap();
    assert_eq!(channels.len(), 1);
    assert_eq!(channels[0].name, "B");
    assert_eq!(channels[0].url, "udp://239.0.0.1:1234");
}

#[test]
fn entry_state_is_cleared_after_each_address() {
    let text = "#EXTM3U\n#EXTINF:-1 tvg-logo=L,A\nftp://skip/me\nhttp://a/2\n";
    let channels = parse_m3u(text, "s", BASE).unwrap();
    assert_eq!(channels.len(), 1);
    assert_eq!(channels[0].name, "Channel 1");
    assert_eq!(channels[0].logo, "");
}

#[test]
fn byte_order_marks_are_skipped() {
    let plain = parse_m3u("#EXTM3U\nhttp://a/1\n", "s", BASE).unwrap();
    let marked = parse_m3u("\u{feff}\u{feff}#EXTM3U\nhttp://a/1\n", "s", BASE).unwrap();
    assert_eq!(plain.len(), marked.len());
    assert_eq!(plain[0].url, marked[0].url);
}

#[test]
fn addresses_are_serialized_by_the_url_crate() {
    let text = "#EXTM3U\nHTTP://Example.COM\n";
    let channels = parse_m3u(text, "s", BASE).unwrap();
    assert_eq!(channels[0].url, "http://example.com/");
}

#[test]
fn hls_stream_named_after_path() {
    let text = "#EXTM3U\n#ext-x-stream-inf:BANDWIDTH=1\nlow.m3u8\n";
    let channels = parse_m3u(text, "s", "https://cdn.example.com/live/").unwrap();
    assert_eq!(channels.len(), 1);
    assert_eq!(channels[0].name, "");
    assert_eq!(channels[0].group, "Uncategorized");
    let c = stream_channel_of("s", "data:x", "text/plain,hi");
    assert_eq!(c.name, "Live stream");
    let c = stream_channel_of("s", "https://h/a/b", "/a/b");
    assert_eq!(c.name, "b");
}

#[test]
fn remote_urls_are_http_with_a_host() {
    assert!(remote_url("https://example.com/x.m3u").is_some());
    assert!(remote_url("http://example.com").is_some());
    assert!(remote_url("file:///tmp/x.m3u").is_none());
    assert!(remote_url("C:\\x.m3u").is_none());
    assert!(remote_url("not a url").is_none());
    assert_eq!(remote_url("HTTPS://EXAMPLE.com/a").unwrap().as_str(), "https://example.com/a");
}

#[test]
fn tags_and_commas() {
    assert!(has_tag("#extinf:-1,x", "#EXTINF:"));
    assert!(!has_tag("#EXTIN", "#EXTINF:"));
    assert!(!has_tag("é#EXTINF:", "#EXTINF:"));
    assert_eq!(metadata_comma("#EXTINF:-1 a=\"x,y\" b='p,q',Title"), Some(26));
    assert_eq!(metadata_comma("#EXTINF:-1 a=\"x,y"), None);
    assert_eq!(metadata_comma("é,"), Some(2));
    let line = "#EXTINF:-1 tvg-name=\"Café, Bar\",Título";
    let c = metadata_comma(line).unwrap();
    assert_eq!(&line[c..c + 1], ",");
    assert_eq!(&line[c + 1..], "Título");
}
