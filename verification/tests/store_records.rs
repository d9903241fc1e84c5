use nola::model::{uncategorized, ChannelData, LiveChannel};
use nola::playlist::fetchable;
use nola::store::{
    already_added_message, check_location, id_from_clock, id_from_nanos, load_error, new_source, normalize_location, playlist_too_large,
    too_large_message, MAX_PLAYLIST_BYTES,
};

fn channel(source: &str, url: &str) -> LiveChannel {
    LiveChannel {
        source_id: source.to_string(),
        name: url.to_string(),
        url: url.to_string(),
        group: uncategorized(),
        logo: String::new(),
        tvg_id: String::new(),
        number: String::new(),
    }
}

#[test]
fn new_sources_are_named_and_trimmed() {
    let s = new_source("1".to_string(), "   ", "  https://a/x.m3u \n");
    assert_eq!(s.name, "Live playlist");
    assert_eq!(s.location, "https://a/x.m3u");
    assert_eq!(s.updated_at, None);
    let s = new_source("2".to_string(), " News ", "/x.m3u");
    assert_eq!(s.name, "News");
    assert_eq!(normalize_location("\t/a b/ "), "/a b/");
}

#[test]
fn adding_refuses_a_known_location() {
    let mut d = ChannelData::default();
    let s = new_source("1".to_string(), "A", "https://a/x.m3u");
    assert!(d.add_source(s, vec![channel("1", "http://a/1")]).is_ok());
    assert!(d.has_location("https://a/x.m3u"));
    let again = new_source("2".to_string(), "B", "https://a/x.m3u");
    assert_eq!(d.add_source(again, vec![channel("2", "http://b/1")]).unwrap_err(), "This playlist is already added.");
    assert_eq!(d.sources.len(), 1);
    assert_eq!(d.channels.len(), 1);
}

#[test]
fn remove_undoes_add() {
    let mut d = ChannelData::default();
    d.add_source(new_source("1".to_string(), "A", "a"), vec![channel("1", "u1"), channel("1", "u2")]).unwrap();
    d.add_source(new_source("2".to_string(), "B", "b"), vec![channel("2", "u3")]).unwrap();
    let before_sources: Vec<String> = d.sources.iter().map(|s| s.id.clone()).collect();
    let before_channels: Vec<String> = d.channels.iter().map(|c| c.url.clone()).collect();
    d.add_source(new_source("3".to_string(), "C", "c"), vec![channel("3", "u4")]).unwrap();
    d.remove_source("3");
    let after_sources: Vec<String> = d.sources.iter().map(|s| s.id.clone()).collect();
    let after_channels: Vec<String> = d.channels.iter().map(|c| c.url.clone()).collect();
    assert_eq!(before_sources, after_sources);
    assert_eq!(before_channels, after_channels);
    d.remove_source("1");
    assert_eq!(d.sources.len(), 1);
    assert_eq!(d.channels.len(), 1);
    assert_eq!(d.channels[0].url, "u3");
    d.remove_source("1");
    assert_eq!(d.sources.len(), 1);
}

#[test]
fn refresh_replaces_only_that_source() {
    let mut d = ChannelData::default();
    d.add_source(new_source("1".to_string(), "A", "a"), vec![channel("1", "u1")]).unwrap();
    d.add_source(new_source("2".to_string(), "B", "b"), vec![channel("2", "u2")]).unwrap();
    assert!(d.replace_channels("1", 42, vec![channel("1", "n1"), channel("1", "n2")]));
    let urls: Vec<&str> = d.channels.iter().map(|c| c.url.as_str()).collect();
    assert_eq!(urls, vec!["u2", "n1", "n2"]);
    assert_eq!(d.sources[0].updated_at, Some(42));
    assert_eq!(d.sources[1].updated_at, None);
    // Again with the same result: nothing changes.
    assert!(d.replace_channels("1", 42, vec![channel("1", "n1"), channel("1", "n2")]));
    let urls: Vec<&str> = d.channels.iter().map(|c| c.url.as_str()).collect();
    assert_eq!(urls, vec!["u2", "n1", "n2"]);
    assert!(!d.replace_channels("9", 1, vec![channel("9", "x")]));
    assert_eq!(d.channels.len(), 3);
}

#[test]
fn finding_sources() {
    let mut d = ChannelData::default();
    d.add_source(new_source("1".to_string(), "A", "a"), vec![]).unwrap();
    assert_eq!(d.find_source("1").unwrap().name, "A");
    assert!(d.find_source("2").is_none());
    assert_eq!(d.source_to_refresh("2").unwrap_err(), "This playlist was removed.");
    assert_eq!(d.source_to_refresh("1").unwrap().location, "a");
}

#[test]
fn ids_and_messages() {
    assert_eq!(id_from_nanos(255), "ff");
    assert_eq!(id_from_nanos(0), "0");
    assert_eq!(id_from_nanos(-1), "ffffffffffffffff");
    assert_eq!(id_from_nanos(0x1a2b3c), format!("{:x}", 0x1a2b3ci64));
    assert_eq!(id_from_clock(Some(4096)), "1000");
    assert_eq!(id_from_clock(None), "0");
    assert_eq!(already_added_message(), "This playlist is already added.");
    assert_eq!(load_error("News", "Playlist file not found"), "Could not load News: Playlist file not found");
}

#[test]
fn locations_and_sizes() {
    assert!(check_location("https://a/x.m3u", false).is_ok());
    assert!(check_location("/tmp/list.m3u", true).is_ok());
    assert_eq!(
        check_location("/tmp/missing.m3u", false).unwrap_err(),
        "Enter a playlist URL or choose an existing M3U file."
    );
    assert_eq!(check_location("ftp://a/x.m3u", false).unwrap_err(), "Enter a playlist URL or choose an existing M3U file.");
    assert_eq!(MAX_PLAYLIST_BYTES, 32 * 1024 * 1024);
    assert!(!playlist_too_large(32 * 1024 * 1024));
    assert!(playlist_too_large(32 * 1024 * 1024 + 1));
    assert_eq!(too_large_message(), "Playlist exceeds 32 MB");
}

#[test]
fn fetchable_urls() {
    assert!(fetchable("https", true));
    assert!(fetchable("http", true));
    assert!(!fetchable("http", false));
    assert!(!fetchable("file", true));
}
