use muso::path::MusoPath;
use muso::sorting::{SortTask, Sorter};

fn p(segs: &[&str]) -> MusoPath {
    MusoPath::new(segs.iter().map(|s| s.to_string()).collect())
}

#[test]
fn three_files_one_unsupported() {
    let dir = p(&["music", "incoming"]);
    let mut sorter = Sorter::new(p(&["music", "incoming"]), false);

    let first = sorter.next_task();
    assert_eq!(first, Some(SortTask::Enter(dir.duplicate())));

    let children = vec![
        p(&["music", "incoming", "a.flac"]),
        p(&["music", "incoming", "b.mp3"]),
        p(&["music", "incoming", "notes.txt"]),
    ];
    sorter.dir_listed(dir, children);

    let mut files = 0;
    while let Some(task) = sorter.next_task() {
        match task {
            SortTask::Enter(path) => {
                files += 1;
                // the text file has an unsupported type; the two audio
                // files are moved
                if path.segments().last().unwrap().ends_with(".txt") {
                    sorter.file_failed();
                } else {
                    let dest = p(&["music", "Artist", "Album", "x"]);
                    sorter.file_sorted(dest);
                }
            }
            SortTask::CheckEmpty(_) => panic!("no emptiness checks without remove_empty"),
        }
    }

    assert_eq!(files, 3);
    let report = sorter.into_report();
    assert_eq!(report.total, 3);
    assert_eq!(report.success, 2);
    assert_eq!(report.new_paths.len(), 2);
}

#[test]
fn emptied_directory_is_removed() {
    let dir = p(&["music", "old"]);
    let mut sorter = Sorter::new(dir.duplicate(), true);

    assert_eq!(sorter.next_task(), Some(SortTask::Enter(dir.duplicate())));
    sorter.dir_listed(dir.duplicate(), vec![p(&["music", "old", "only.flac"])]);

    // the sole file is visited first, and its move empties the directory
    assert_eq!(
        sorter.next_task(),
        Some(SortTask::Enter(p(&["music", "old", "only.flac"])))
    );
    sorter.file_sorted(p(&["music", "Artist", "Album", "1 - T.flac"]));

    // only then is the directory tested for emptiness
    assert_eq!(sorter.next_task(), Some(SortTask::CheckEmpty(dir)));
    assert!(sorter.should_remove(true));

    assert_eq!(sorter.next_task(), None);
    let report = sorter.into_report();
    assert_eq!((report.success, report.total), (1, 1));
}

#[test]
fn non_empty_directory_is_untouched() {
    let dir = p(&["music", "mixed"]);
    let mut sorter = Sorter::new(dir.duplicate(), true);

    assert_eq!(sorter.next_task(), Some(SortTask::Enter(dir.duplicate())));
    sorter.dir_listed(
        dir.duplicate(),
        vec![p(&["music", "mixed", "a.flac"]), p(&["music", "mixed", "keep.txt"])],
    );

    assert!(matches!(sorter.next_task(), Some(SortTask::Enter(_))));
    sorter.file_failed();
    assert!(matches!(sorter.next_task(), Some(SortTask::Enter(_))));
    sorter.file_sorted(p(&["music", "Artist", "Album", "a.flac"]));

    assert_eq!(sorter.next_task(), Some(SortTask::CheckEmpty(dir)));
    // the text file is still there: the directory stays
    assert!(!sorter.should_remove(false));

    assert_eq!(sorter.next_task(), None);
}

#[test]
fn no_emptiness_checks_without_remove_empty() {
    let dir = p(&["music"]);
    let mut sorter = Sorter::new(dir.duplicate(), false);
    assert_eq!(sorter.next_task(), Some(SortTask::Enter(dir.duplicate())));
    sorter.dir_listed(dir, vec![p(&["music", "a.flac"])]);
    assert_eq!(sorter.next_task(), Some(SortTask::Enter(p(&["music", "a.flac"]))));
    sorter.file_sorted(p(&["music", "A", "a.flac"]));
    assert_eq!(sorter.next_task(), None);
}
