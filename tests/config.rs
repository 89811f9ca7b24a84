use sc::config::{cache_dir_in, cache_name, cache_path_in, cfg_dir_in, cfg_path_in, Config};

#[test]
fn config_from_text_skips_leading_empty_lines() {
    let c = Config::from_text("\n\nhttps://a.example/cal.ics\nhttps://b.example/x\n");
    assert_eq!(c.get_urls(), &vec![
        "https://a.example/cal.ics".to_string(),
        "https://b.example/x".to_string(),
        String::new()
    ]);
    let e = Config::from_text("");
    assert!(e.get_urls().is_empty());
}

#[test]
fn config_add_and_remove() {
    let mut c = Config::new(vec!["u0".to_string(), "u1".to_string()]);
    c.add_line("u2");
    assert_eq!(c.get_urls().len(), 3);
    assert_eq!(c.get_urls()[2], "u2");
    assert!(c.remove_line(1).is_ok());
    assert_eq!(c.get_urls(), &vec!["u0".to_string(), "u2".to_string()]);
    assert_eq!(c.remove_line(2), Err("ID of calendar needs to be in range [0..1]".to_string()));
    assert_eq!(c.get_urls().len(), 2);
    let mut empty = Config::new(Vec::new());
    assert!(empty.remove_line(0).is_err());
}

#[test]
fn config_paths() {
    assert_eq!(cfg_dir_in("/home/u"), "/home/u/.config/sc/");
    assert_eq!(cfg_path_in("/home/u"), "/home/u/.config/sc/config");
    assert_eq!(cache_dir_in("/home/u"), "/home/u/.cache/sc/");
}

#[test]
fn cache_names() {
    assert_eq!(cache_name("https://a.example/cal.ics?x=1"), "https___a.example_cal.ics_x_1");
    assert_eq!(cache_path_in("/c/", "a-b"), "/c/a-b");
}

#[test]
fn home_based_paths() {
    if let Some(p) = sc::config::cfg_path() {
        assert!(p.ends_with("/.config/sc/config"));
    }
    if let Some(d) = sc::config::cfg_dir() {
        assert!(d.ends_with("/.config/sc/"));
    }
    if let Some(d) = sc::config::cache_dir() {
        assert!(d.ends_with("/.cache/sc/"));
    }
}

#[test]
fn config_text_reads_back() {
    let c = Config::new(vec!["https://a".to_string(), String::new(), "b".to_string()]);
    assert_eq!(c.to_text(), "https://a\n\nb");
    let back = Config::from_text(&c.to_text());
    assert_eq!(back.get_urls(), c.get_urls());
    assert_eq!(Config::new(Vec::new()).to_text(), "");
    assert!(Config::from_text("").get_urls().is_empty());
    assert_eq!(Config::new(vec!["one".to_string()]).to_text(), "one");
}

#[test]
fn removal_messages() {
    let mut empty = Config::new(Vec::new());
    assert_eq!(empty.remove_line(3), Err("no calendar has been added".to_string()));
    let urls: Vec<String> = (0..12).map(|i| format!("u{}", i)).collect();
    let mut c = Config::new(urls);
    assert_eq!(c.remove_line(12), Err("ID of calendar needs to be in range [0..11]".to_string()));
    assert_eq!(c.get_urls().len(), 12);
}

#[test]
fn decimal_text() {
    assert_eq!(sc::config::decimal(0), "0");
    assert_eq!(sc::config::decimal(7), "7");
    assert_eq!(sc::config::decimal(10), "10");
    assert_eq!(sc::config::decimal(4096), "4096");
    assert_eq!(sc::config::decimal(usize::MAX), usize::MAX.to_string());
}
