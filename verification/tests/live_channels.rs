use nola::playlist::parse_m3u;

const BASE: &str = "https://example.com/lists/tv.m3u";

#[test]
fn parses_attributes_titles_and_groups() {
    let text = "\u{feff}#EXTM3U\n\
        #EXTINF:-1 tvg-id=\"a.us\" tvg-chno=\"101\" tvg-logo='https://x/logo.png' group-title=\"News, Weather\",CBS News\n\
        https://cdn.example.com/cbs.m3u8\n\
        #EXTINF:-1 tvg-name=Fallback,\n\
        relative/stream.m3u8\n\
        #EXTINF:-1,Grouped\n\
        #EXTGRP:Movies\n\
        https://cdn.example.com/m.m3u8|User-Agent=Foo\n";
    let channels = parse_m3u(text, "s", BASE).unwrap();
    assert_eq!(channels.len(), 3);
    assert_eq!(channels[0].name, "CBS News");
    assert_eq!(channels[0].group, "News, Weather");
    assert_eq!(channels[0].number, "101");
    assert_eq!(channels[0].logo, "https://x/logo.png");
    assert_eq!(channels[0].tvg_id, "a.us");
    assert_eq!(channels[1].name, "Fallback");
    assert_eq!(channels[1].url, "https://example.com/lists/relative/stream.m3u8");
    assert_eq!(channels[1].group, "Uncategorized");
    assert_eq!(channels[2].group, "Movies");
    assert_eq!(channels[2].url, "https://cdn.example.com/m.m3u8");
}

#[test]
fn skips_duplicates_and_unsupported_schemes() {
    let text = "#EXTM3U\n#EXTINF:-1,A\nhttps://a/1\n#EXTINF:-1,B\nhttps://a/1\n#EXTINF:-1,C\nftp://a/2\n";
    let channels = parse_m3u(text, "s", BASE).unwrap();
    assert_eq!(channels.len(), 1);
    assert_eq!(channels[0].name, "A");
}

#[test]
fn rejects_non_playlists() {
    assert!(parse_m3u("<html></html>", "s", BASE).is_err());
    assert!(parse_m3u("#EXTM3U\n# nothing\n", "s", BASE).is_err());
}

#[test]
fn treats_hls_media_playlist_as_single_channel() {
    let text = "#EXTM3U\n#EXT-X-TARGETDURATION:6\n#EXTINF:6,\nseg1.ts\n";
    let channels = parse_m3u(text, "s", "https://cdn.example.com/live/news.m3u8").unwrap();
    assert_eq!(channels.len(), 1);
    assert_eq!(channels[0].url, "https://cdn.example.com/live/news.m3u8");
    assert_eq!(channels[0].name, "news.m3u8");
    assert!(parse_m3u(text, "s", "C:\\local.m3u8").is_err());
}
