use hash_miner::config::{
    default_profit_guard, default_tip_mode, default_watch_interval, enable_ansi_on_windows,
    find_place, key_source, log_filter, resolve_config_path, resolve_private_key, short_url,
    KeySource, NoPrivateKey, PathChoice, SearchedPlaces,
};

#[test]
fn short_url_drops_the_scheme() {
    assert_eq!(short_url("https://rpc.example"), "rpc.example");
    assert_eq!(short_url("http://rpc.example"), "rpc.example");
    assert_eq!(short_url("ws://rpc.example"), "ws://rpc.example");
    assert_eq!(short_url("https://http://x"), "http://x");
    assert_eq!(short_url(""), "");
}

#[test]
fn defaults_are_as_documented() {
    assert_eq!(default_tip_mode(), "market");
    assert!(default_profit_guard());
    assert_eq!(default_watch_interval(), 3);
}

const NOWHERE: SearchedPlaces =
    SearchedPlaces { cwd: false, cwd_parent: false, exe_dir: None, exe_parent: None };

#[test]
fn settings_are_looked_for_in_order() {
    let mut p = NOWHERE;
    p.exe_parent = Some(true);
    assert!(matches!(find_place(&p), Some(PathChoice::ExeParent)));
    p.exe_dir = Some(true);
    assert!(matches!(find_place(&p), Some(PathChoice::ExeDir)));
    p.cwd_parent = true;
    assert!(matches!(find_place(&p), Some(PathChoice::CwdParent)));
    p.cwd = true;
    assert!(matches!(find_place(&p), Some(PathChoice::Cwd)));
    assert!(matches!(resolve_config_path(true, true, &p), PathChoice::AsGiven));
    assert!(matches!(resolve_config_path(true, false, &p), PathChoice::Cwd));
    assert!(matches!(resolve_config_path(false, true, &p), PathChoice::Cwd));
}

#[test]
fn missing_settings_are_reported_in_the_working_directory() {
    assert!(find_place(&NOWHERE).is_none());
    assert!(matches!(resolve_config_path(false, false, &NOWHERE), PathChoice::Cwd));
    let p = SearchedPlaces { exe_dir: Some(false), exe_parent: Some(false), ..NOWHERE };
    assert!(find_place(&p).is_none());
}

#[test]
fn the_key_of_the_settings_comes_first() {
    let s = key_source(&Some(" \t0xabc\n".to_string()));
    assert!(matches!(&s, KeySource::Settings(k) if k == "0xabc"));
    assert_eq!(resolve_private_key(s, Some("env".to_string())).ok().unwrap(), "0xabc");
}

#[test]
fn without_one_the_environment_is_asked() {
    for configured in [None, Some("".to_string()), Some(" \u{3000}\n".to_string())] {
        let s = key_source(&configured);
        assert!(matches!(s, KeySource::Environment));
        assert_eq!(resolve_private_key(s, Some(" env ".to_string())).ok().unwrap(), " env ");
    }
}

#[test]
fn without_any_key_there_is_an_error() {
    assert!(resolve_private_key(KeySource::Environment, None).is_err());
    assert_eq!(
        NoPrivateKey.message(),
        "config.toml 里 private_key 为空, 且 .env 里没有 PRIVATE_KEY"
    );
}

#[test]
fn libraries_only_log_warnings() {
    assert_eq!(
        log_filter("debug"),
        "debug,wgpu_core=warn,wgpu_hal=warn,naga=warn,alloy=warn,hyper=warn"
    );
}

#[test]
fn escape_sequences_are_switched_on() {
    assert_eq!(enable_ansi_on_windows(true, Some(3)), Some(7));
    assert_eq!(enable_ansi_on_windows(true, Some(7)), Some(7));
    assert_eq!(enable_ansi_on_windows(true, None), None);
    assert_eq!(enable_ansi_on_windows(false, Some(3)), None);
}
