use muso::config::{Config, LibraryConfig, WatchConfig};
use muso::format::ParsedFormat;
use muso::path::MusoPath;

fn p(segs: &[&str]) -> MusoPath {
    MusoPath::new(segs.iter().map(|s| s.to_string()).collect())
}

fn two_library_config() -> Config {
    Config {
        watch: WatchConfig { every: None, libraries: vec!["main".to_string()] },
        libraries: vec![
            (
                "main".to_string(),
                LibraryConfig {
                    format: ParsedFormat::from_str("{artist}/{title}.{ext}").unwrap(),
                    folders: vec![p(&["home", "music"])],
                    exfat_compat: Some(true),
                },
            ),
            (
                "portable".to_string(),
                LibraryConfig {
                    format: ParsedFormat::from_str("{title}.{ext}").unwrap(),
                    folders: vec![p(&["mnt", "player"]), p(&["mnt", "card"])],
                    exfat_compat: None,
                },
            ),
        ],
    }
}

#[test]
fn format_of_finds_libraries_by_name() {
    let config = two_library_config();
    assert_eq!(
        config.format_of("main").map(|f| f.to_text()),
        Some("{artist}/{title}.{ext}")
    );
    assert_eq!(config.format_of("portable").map(|f| f.to_text()), Some("{title}.{ext}"));
    assert!(config.format_of("absent").is_none());
}

#[test]
fn search_format_matches_folders_exactly() {
    let config = two_library_config();
    assert_eq!(
        config.search_format(&p(&["mnt", "card"])).map(|f| f.to_text()),
        Some("{title}.{ext}")
    );
    assert_eq!(
        config.search_format_for(&p(&["home", "music"])).map(|f| f.to_text()),
        Some("{artist}/{title}.{ext}")
    );
    // a path below a folder is not the folder itself
    assert!(config.search_format(&p(&["home", "music", "sub"])).is_none());
}

#[test]
fn exfat_compat_defaults_to_false() {
    let config = two_library_config();
    assert!(config.is_exfat_compat("main"));
    assert!(!config.is_exfat_compat("portable"));
    assert!(!config.is_exfat_compat("absent"));
}

#[test]
fn paths_know_their_parents_and_prefixes() {
    let path = p(&["home", "music", "a.flac"]);
    assert_eq!(path.parent(), Some(p(&["home", "music"])));
    assert_eq!(p(&[]).parent(), None);
    assert!(path.starts_with(&p(&["home"])));
    assert!(path.starts_with(&path.duplicate()));
    assert!(!path.starts_with(&p(&["home", "video"])));
    assert!(!p(&["home"]).starts_with(&path));
    assert_eq!(path.render(), "home/music/a.flac");
    assert_eq!(p(&[]).render(), "");
    assert_eq!(path.depth(), 3);
}
