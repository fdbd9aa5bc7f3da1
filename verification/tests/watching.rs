use muso::config::{Config, LibraryConfig, WatchConfig};
use muso::error::MusoError;
use muso::format::ParsedFormat;
use muso::path::MusoPath;
use muso::watcher::{WatchAction, Watcher};

fn p(segs: &[&str]) -> MusoPath {
    MusoPath::new(segs.iter().map(|s| s.to_string()).collect())
}

fn one_library_config() -> Config {
    Config {
        watch: WatchConfig { every: Some(1), libraries: vec!["main".to_string()] },
        libraries: vec![(
            "main".to_string(),
            LibraryConfig {
                format: ParsedFormat::from_str("{artist}/{album}/{title}.{ext}").unwrap(),
                folders: vec![p(&["home", "music"])],
                exfat_compat: None,
            },
        )],
    }
}

#[test]
fn self_caused_notifications_are_swallowed_exactly_once() {
    let mut watcher = Watcher::new(one_library_config());
    let root = p(&["home", "music"]);
    let dest = p(&["home", "music", "Artist", "Album", "Title.flac"]);
    let parent = p(&["home", "music", "Artist", "Album"]);

    // a successful rename to `dest` seeds the ignore-set with the
    // destination and its parent
    watcher.ignore_path(&dest, &root).unwrap();

    // the notification for the destination file is swallowed once
    assert_eq!(watcher.on_event(&dest, true, false), WatchAction::Suppressed);
    // the notification for the new parent directory is swallowed once
    assert_eq!(watcher.on_event(&parent, false, true), WatchAction::Suppressed);
    // a second identical notification for the destination is handled
    assert_eq!(
        watcher.on_event(&dest, true, false),
        WatchAction::SortSingle { root: p(&["home", "music"]), library: "main".to_string() }
    );
}

#[test]
fn parent_equal_to_root_is_not_ignored() {
    let mut watcher = Watcher::new(one_library_config());
    let root = p(&["home", "music"]);
    let dest = p(&["home", "music", "flat.flac"]);

    watcher.ignore_path(&dest, &root).unwrap();

    // only the destination was inserted: the root itself stays live
    assert_eq!(watcher.on_event(&dest, true, false), WatchAction::Suppressed);
    assert_eq!(
        watcher.on_event(&root, false, true),
        WatchAction::SortDirectory { root: p(&["home", "music"]), library: "main".to_string() }
    );
}

#[test]
fn events_outside_every_root_are_discarded() {
    let mut watcher = Watcher::new(one_library_config());
    assert_eq!(
        watcher.on_event(&p(&["tmp", "stray.flac"]), true, false),
        WatchAction::Discard
    );
}

#[test]
fn directory_events_sort_recursively() {
    let mut watcher = Watcher::new(one_library_config());
    let sub = p(&["home", "music", "fresh"]);
    assert_eq!(
        watcher.on_event(&sub, false, true),
        WatchAction::SortDirectory { root: p(&["home", "music"]), library: "main".to_string() }
    );
}

#[test]
fn root_for_picks_the_nearest_ancestor() {
    let watcher = Watcher::new(one_library_config());
    let inside = p(&["home", "music", "a", "b.flac"]);
    assert_eq!(watcher.root_for(&inside), Some(p(&["home", "music"])));
    assert_eq!(watcher.root_for(&p(&["home", "music"])), Some(p(&["home", "music"])));
    assert_eq!(watcher.root_for(&p(&["home"])), None);
    assert_eq!(watcher.root_for(&p(&["etc", "passwd"])), None);
}

#[test]
fn ignore_path_without_parent_fails() {
    let mut watcher = Watcher::new(one_library_config());
    let rootless = MusoPath::new(Vec::new());
    assert_eq!(
        watcher.ignore_path(&rootless, &p(&["home", "music"])),
        Err(MusoError::InvalidParent { child: String::new() })
    );
}

#[test]
fn directory_suppression_covers_prefixes_of_entries() {
    let mut watcher = Watcher::new(one_library_config());
    let root = p(&["home", "music"]);
    let dest = p(&["home", "music", "Artist", "Album", "Title.flac"]);
    watcher.ignore_path(&dest, &root).unwrap();

    // an event for a directory above the recorded destination is treated
    // as self-caused: some ignore-set entry lies below it
    assert_eq!(
        watcher.on_event(&p(&["home", "music", "Artist"]), false, true),
        WatchAction::Suppressed
    );
    // the matching entry itself was not removed by that (only the exact
    // path would be), so the destination file is still suppressed once
    assert_eq!(watcher.on_event(&dest, true, false), WatchAction::Suppressed);
}
