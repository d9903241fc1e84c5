use nola::player::{
    availability, installer_file_name, launch_plan, parse_option, player_kind, split_command_line,
    startup_options, Availability, PlayerKind,
};
use nola::search::{distinct_results, fallback_trackers, is_anime_search, is_auto_mode, needs_fallback, normalize_query, select_trackers, TrackerInfo};

#[test]
fn options_parse_like_mpv() {
    assert_eq!(parse_option("--volume=50"), ("volume".to_string(), "50".to_string()));
    assert_eq!(parse_option("--no-audio"), ("audio".to_string(), "no".to_string()));
    assert_eq!(parse_option("--fs"), ("fs".to_string(), "yes".to_string()));
    assert_eq!(parse_option("--a=b=c"), ("a".to_string(), "b=c".to_string()));
    assert_eq!(parse_option("--no-x=1"), ("no-x".to_string(), "1".to_string()));
    assert_eq!(parse_option("--"), ("".to_string(), "yes".to_string()));
}

#[test]
fn command_line_splits_into_options_and_files() {
    let args: Vec<String> = ["--fs", "a.mkv", "--", "--not-an-option", "--"].iter().map(|s| s.to_string()).collect();
    let (options, files) = split_command_line(&args).unwrap();
    assert_eq!(options, vec![("fs".to_string(), "yes".to_string())]);
    assert_eq!(files, vec!["a.mkv".to_string(), "--not-an-option".to_string(), "--".to_string()]);
    let only_options: Vec<String> = vec!["--fs".to_string()];
    assert_eq!(split_command_line(&only_options).unwrap_err(), "usage: mpv [--option=value]... <file-or-url>...");
    let all = startup_options(&options);
    assert_eq!(all.len(), 8);
    assert_eq!(all[0], ("config".to_string(), "yes".to_string()));
    assert_eq!(all[1], ("idle".to_string(), "no".to_string()));
    assert_eq!(all[7], ("fs".to_string(), "yes".to_string()));
}

#[test]
fn external_players() {
    assert_eq!(player_kind("MPV"), PlayerKind::Mpv);
    assert_eq!(player_kind("Vlc"), PlayerKind::Vlc);
    assert_eq!(player_kind("Custom"), PlayerKind::Custom);
    assert_eq!(player_kind("mplayer"), PlayerKind::Unsupported);
    let p = launch_plan("mpv", "http://s", "Show", &None).unwrap();
    assert_eq!(p.program, "mpv");
    assert_eq!(p.args, vec!["http://s", "--title=Show", "--force-window=immediate"]);
    let p = launch_plan("VLC", "http://s", "Show", &None).unwrap();
    assert_eq!(p.program, "vlc");
    assert_eq!(p.args, vec!["http://s", "--meta-title=Show"]);
    let p = launch_plan("custom", "http://s", "Show", &Some("  /usr/bin/celluloid ".to_string())).unwrap();
    assert_eq!(p.program, "/usr/bin/celluloid");
    assert_eq!(p.args, vec!["http://s"]);
    assert!(p.custom);
    assert_eq!(launch_plan("custom", "u", "t", &Some("  ".to_string())).err().unwrap(), "No custom player program selected");
    assert_eq!(launch_plan("Totem", "u", "t", &None).err().unwrap(), "Unsupported player: Totem");
    assert!(matches!(availability("custom", &None).ok().unwrap(), Availability::NoProgram));
    assert!(matches!(availability("mpv", &None).ok().unwrap(), Availability::NamedProgram(ref p) if p == "mpv"));
    assert!(matches!(availability("custom", &Some("x".into())).ok().unwrap(), Availability::CustomProgram(ref p) if p == "x"));
    assert_eq!(availability("Totem", &None).err().unwrap(), "Unsupported player: Totem");
}

#[test]
fn installer_names() {
    assert_eq!(installer_file_name("https://h/releases/v2/Nola_2.3.1_x64-setup.exe"), "Nola_2.3.1_x64-setup.exe");
    assert_eq!(installer_file_name("noslash"), "noslash");
    assert_eq!(installer_file_name("https://h/dir/"), "");
}

#[test]
fn search_results_without_repeated_hashes() {
    let links: Vec<String> = [
        "magnet:?xt=urn:btih:AAA&dn=1",
        "magnet:?dn=x",
        "magnet:?dn=2&xt=urn:btih:aaa",
        "magnet:?xt=urn:btih:BBB",
        "magnet:?dn=y",
        "xt=urn:btih:bbb",
    ]
    .iter()
    .map(|s| s.to_string())
    .collect();
    assert_eq!(distinct_results(&links), vec![0, 1, 3, 4]);
}

#[test]
fn queries_and_trackers() {
    assert_eq!(normalize_query("Re:Zero - Starting_Life"), "Re Zero   Starting Life");
    let trackers = vec![
        TrackerInfo { id: "nyaa".into(), is_anime: Some(true) },
        TrackerInfo { id: "tpb".into(), is_anime: Some(false) },
        TrackerInfo { id: "misc".into(), is_anime: None },
        TrackerInfo { id: "yts".into(), is_anime: Some(false) },
    ];
    assert!(is_auto_mode(&None));
    assert!(is_auto_mode(&Some(vec![])));
    assert!(!is_auto_mode(&Some(vec!["x".into()])));
    assert!(is_anime_search(&Some("anime".into())));
    assert!(!is_anime_search(&Some("tv".into())));
    assert_eq!(select_trackers(&trackers, &None, true), vec![0]);
    assert_eq!(select_trackers(&trackers, &None, false), vec![1, 3]);
    assert_eq!(select_trackers(&trackers, &Some(vec!["yts".into(), "misc".into()]), true), vec![2, 3]);
    assert_eq!(fallback_trackers(&trackers), vec![1, 3]);
    assert!(needs_fallback(true, true, true));
    assert!(!needs_fallback(false, true, true));
    assert!(!needs_fallback(true, true, false));
}
