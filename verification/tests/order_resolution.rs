use ftp_sync::order::{is_ready_for_download, Order};
use ftp_sync::session::{batch_outcome, deletion_order, fetch_decision, file_target_path, size_probe_value};
use ftp_sync::utils::FtpDirEntry;
use ftp_sync::watcher::Watcher;
use ftp_sync::CustomError;

fn file(path: &str, size: usize) -> FtpDirEntry {
    FtpDirEntry::File(path.to_string(), size)
}

fn folder(path: &str) -> FtpDirEntry {
    FtpDirEntry::Folder(path.to_string())
}

#[test]
fn folder_with_top_level_marker_is_ready() {
    let entries = vec![file("/in/batch1/report.txt", 10), file("/in/batch1/a.dat", 100)];
    assert!(is_ready_for_download(&entries, "txt"));
}

#[test]
fn marker_one_level_deeper_is_not_seen() {
    // The marker sits inside `sub`, so the top-level listing shows only the
    // folder: the non-recursive check must say not ready.
    let entries = vec![folder("/in/batch1/sub"), file("/in/batch1/a.dat", 100)];
    assert!(!is_ready_for_download(&entries, "txt"));
}

#[test]
fn marker_suffix_is_case_insensitive() {
    let entries = vec![file("/in/batch1/REPORT.TXT", 10)];
    assert!(is_ready_for_download(&entries, "txt"));
}

#[test]
fn folder_named_like_marker_is_not_a_marker() {
    let entries = vec![folder("/in/batch1/notes.txt")];
    assert!(!is_ready_for_download(&entries, "txt"));
}

#[test]
fn resolution_walks_the_tree_and_sorts_folders() {
    let order = Order::new(&folder("/in/batch1"), "/local/dest");
    let mut res = order.begin_resolve();

    assert_eq!(res.next_target().unwrap().as_str(), "/in/batch1");
    res.step(vec![
        file("/in/batch1/a.dat", 100),
        folder("/in/batch1/sub"),
        file("/in/batch1/batch1.txt", 4),
    ]);

    assert_eq!(res.next_target().unwrap().as_str(), "/in/batch1/sub");
    res.step(vec![file("/in/batch1/sub/b.dat", 50)]);

    assert!(res.finished());
    let mut order = order;
    order.finish_resolve(res);

    let folders = order.get_folders_list().unwrap();
    assert_eq!(folders, vec![folder("/in/batch1"), folder("/in/batch1/sub")]);

    let files = order.get_files_list().unwrap();
    assert_eq!(
        files,
        vec![
            file("/in/batch1/a.dat", 100),
            file("/in/batch1/batch1.txt", 4),
            file("/in/batch1/sub/b.dat", 50),
        ]
    );
}

#[test]
fn deletion_order_removes_descendants_before_ancestors() {
    let folders = vec![folder("/in/batch1"), folder("/in/batch1/sub")];
    let order = deletion_order(&folders);
    assert_eq!(order, vec![folder("/in/batch1/sub"), folder("/in/batch1")]);

    let files = vec![file("/in/batch1/a.dat", 100), file("/in/batch1/sub/b.dat", 50)];
    let order = deletion_order(&files);
    assert_eq!(
        order,
        vec![file("/in/batch1/sub/b.dat", 50), file("/in/batch1/a.dat", 100)]
    );
}

#[test]
fn unresolved_order_cannot_be_downloaded() {
    let order = Order::new(&folder("/in/batch1"), "/local/dest");
    let r = order.download_request();
    assert!(matches!(r, Err(CustomError::Io(_))));
}

#[test]
fn resolved_order_hands_out_its_plan() {
    let order = Order::new(&folder("/in/batch1"), "/local/dest");
    let mut res = order.begin_resolve();
    res.step(vec![file("/in/batch1/a.dat", 100)]);
    let mut order = order;
    order.finish_resolve(res);
    let (files, dest) = order.download_request().unwrap();
    assert_eq!(files, vec![file("/in/batch1/a.dat", 100)]);
    assert_eq!(dest.as_str(), "/local/dest");
}

#[test]
fn second_run_skips_every_matching_file() {
    // First run: nothing local, both files fetch.
    assert!(fetch_decision(None, 100));
    assert!(fetch_decision(None, 50));
    // Second run against the same destination with no remote change: the
    // local copies match the recorded sizes, so zero transfers remain.
    assert!(!fetch_decision(Some(100), 100));
    assert!(!fetch_decision(Some(50), 50));
    // A short partial copy is fetched again.
    assert!(fetch_decision(Some(99), 100));
}

#[test]
fn any_failed_fetch_fails_the_whole_batch() {
    let files = vec![file("/in/batch1/a.dat", 100), file("/in/batch1/sub/b.dat", 50)];
    let ok = batch_outcome(files.clone(), false);
    assert_eq!(ok.unwrap(), files);
    let failed = batch_outcome(files, true);
    assert!(matches!(failed, Err(CustomError::Ftp(_))));
}

#[test]
fn end_to_end_dispatch_flow() {
    // Discovery resolved the job for /in/batch1.
    let mut job = Order::new(&folder("in/batch1"), "/local/dest");
    let mut res = job.begin_resolve();
    res.step(vec![
        file("in/batch1/a.dat", 100),
        folder("in/batch1/sub"),
        file("in/batch1/batch1.txt", 4),
    ]);
    res.step(vec![file("in/batch1/sub/b.dat", 50)]);
    assert!(res.finished());
    job.finish_resolve(res);

    let mut w = Watcher::new();
    w.push_pending(job);
    let job = w.get_pending().unwrap();
    w.insert_running(job.clone());

    // The move task downloads every file of the plan under the local
    // destination...
    let (files, dest) = job.download_request().unwrap();
    assert_eq!(
        file_target_path("in/batch1/a.dat", &dest).as_str(),
        "/local/dest/batch1/a.dat"
    );
    assert_eq!(
        file_target_path("in/batch1/sub/b.dat", &dest).as_str(),
        "/local/dest/batch1/sub/b.dat"
    );
    let downloaded = batch_outcome(files, false).unwrap();

    // ...then deletes the files, then the folders, each batch in reverse:
    // /in/batch1/sub goes before /in/batch1.
    let file_deletes = deletion_order(&downloaded);
    assert_eq!(
        file_deletes,
        vec![
            file("in/batch1/sub/b.dat", 50),
            file("in/batch1/batch1.txt", 4),
            file("in/batch1/a.dat", 100),
        ]
    );
    let folders = job.get_folders_list().unwrap();
    let folder_deletes = deletion_order(&folders);
    assert_eq!(
        folder_deletes,
        vec![folder("in/batch1/sub"), folder("in/batch1")]
    );

    // The moved job leaves the running set and its root may be discovered
    // anew.
    w.finish_job(&job, true);
    assert!(w.should_enqueue(&job));
}

#[test]
fn size_probe_distinguishes_files_folders_and_failures() {
    assert_eq!(size_probe_value(Some(Some(7045120))), Some(7045120));
    assert_eq!(size_probe_value(Some(None)), Some(-1));
    assert_eq!(size_probe_value(None), None);
}
