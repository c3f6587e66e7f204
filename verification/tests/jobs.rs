use fetch_server::api;
use fetch_server::board::JobBoard;
use fetch_server::job::{
    line_counts_up, new_job, queued_job, restored_job, skips_root, Job, JobMeta, JobStatus, Progress,
};
use fetch_server::source::Tool;
use fetch_server::status::Status;
use fetch_server::table::Table;

fn job(id: &str, url: &str) -> Job {
    queued_job(url, id.to_string(), 17).unwrap()
}

fn is_uuid_v4(s: &str) -> bool {
    let b = s.as_bytes();
    b.len() == 36
        && b.iter().enumerate().all(|(i, c)| match i {
            8 | 13 | 18 | 23 => *c == b'-',
            14 => *c == b'4',
            19 => b"89ab".contains(c),
            _ => c.is_ascii_digit() || (b'a'..=b'f').contains(c),
        })
}

#[test]
fn a_table_holds_each_key_once() {
    let mut t: Table<u32> = Table::new();
    assert_eq!(t.len(), 0);
    assert_eq!(t.insert("a".to_string(), 1), None);
    assert_eq!(t.insert("b".to_string(), 2), None);
    assert_eq!(t.insert("a".to_string(), 3), Some(1));
    assert_eq!(t.len(), 2);
    assert_eq!(*t.nth(0), 3);
    assert_eq!(*t.nth(1), 2);
    assert_eq!(t.get("a"), Some(&3));
    assert_eq!(t.get("c"), None);
    *t.get_mut("b").unwrap() += 5;
    assert_eq!(t.get("b"), Some(&7));
    assert!(t.get_mut("c").is_none());
    assert_eq!(t.remove("a"), Some(3));
    assert_eq!(t.remove("a"), None);
    assert_eq!(t.len(), 1);
    assert_eq!(t.get("b"), Some(&7));
}

#[test]
fn a_queued_job() {
    let j = job("7", "  https://mega.nz/x \n");
    assert_eq!(j.id, "7");
    assert_eq!(j.url, "https://mega.nz/x");
    assert_eq!(j.status, JobStatus::Queued);
    assert_eq!(j.message, "");
    assert_eq!(j.files_done, 0);
    assert!(matches!(j.progress, Progress::Unknown));
    assert_eq!(j.created_at, 17);
    assert_eq!(j.source, "mega");
    assert!(queued_job(" \t", "7".to_string(), 17).is_none());
    assert!(queued_job("", "7".to_string(), 17).is_none());
}

#[test]
fn a_new_job_has_an_identifier_of_its_own() {
    let a = new_job("https://x", 1).unwrap();
    let b = new_job("https://x", 1).unwrap();
    assert!(is_uuid_v4(&a.id), "{}", a.id);
    assert!(is_uuid_v4(&b.id), "{}", b.id);
    assert_ne!(a.id, b.id);
    assert!(new_job("  ", 1).is_none());
}

#[test]
fn how_downloads_end() {
    let mut j = job("1", "u");
    j.start();
    assert_eq!(j.status, JobStatus::Downloading);
    assert_eq!(j.message, "Starting...");
    let mut done = j.clone();
    done.finish(Ok(()));
    assert_eq!(done.status, JobStatus::Done);
    assert_eq!(done.message, "Complete");
    assert!(matches!(done.progress, Progress::Complete));
    let mut cancelled = j.clone();
    cancelled.finish(Err("Cancelled".to_string()));
    assert_eq!(cancelled.status, JobStatus::Cancelled);
    assert_eq!(cancelled.message, "Cancelled");
    assert!(matches!(cancelled.progress, Progress::Unknown));
    let mut failed = j.clone();
    failed.finish(Err("cancelled".to_string()));
    assert_eq!(failed.status, JobStatus::Failed);
    assert_eq!(failed.message, "cancelled");
    for end in [&done, &cancelled, &failed] {
        assert_eq!((&end.id, &end.url, &end.source, end.created_at), (&j.id, &j.url, &j.source, 17));
    }
}

#[test]
fn lines_of_gallery_dl() {
    let mut j = job("1", "u");
    assert!(j.stdout_line(Tool::GalleryDl, " [a][3/12] Downloading x "));
    assert_eq!(j.files_done, 3);
    assert!(matches!(j.progress, Progress::Counted { done: 3, total: 12 }));
    assert_eq!(j.message, "[a][3/12] Downloading x");
    assert!(j.stdout_line(Tool::GalleryDl, "Downloading y"));
    assert_eq!(j.files_done, 4);
    assert!(matches!(j.progress, Progress::Counted { done: 3, total: 12 }));
    assert!(j.stdout_line(Tool::GalleryDl, "Progress: 5%"));
    assert!(matches!(j.progress, Progress::Counted { done: 3, total: 12 }));
    assert_eq!(j.files_done, 4);
    assert!(!j.stdout_line(Tool::GalleryDl, "  \t"));
    assert_eq!(j.message, "Progress: 5%");
    assert!(j.stdout_line(Tool::GalleryDl, "[a][1/0]"));
    assert!(matches!(j.progress, Progress::Counted { done: 1, total: 0 }));
}

#[test]
fn lines_of_megadl() {
    let mut j = job("1", "u");
    assert!(j.stdout_line(Tool::Mega, "Downloading x Progress: 12.5%"));
    assert_eq!(j.files_done, 1);
    assert!(matches!(&j.progress, Progress::Percent(t) if t == "12.5"));
    assert!(j.stdout_line(Tool::Mega, "[a][3/12] Downloading"));
    assert_eq!(j.files_done, 2);
    assert!(matches!(&j.progress, Progress::Percent(t) if t == "12.5"));
    assert!(j.stdout_line(Tool::Mega, "quiet"));
    assert_eq!(j.files_done, 2);
    assert_eq!(j.message, "quiet");
}

#[test]
fn lines_of_standard_error() {
    let mut j = job("1", "u");
    assert!(j.stderr_line(" Downloading [a][3/12] "));
    assert_eq!(j.message, "Downloading [a][3/12]");
    assert_eq!(j.files_done, 0);
    assert!(matches!(j.progress, Progress::Unknown));
    assert!(!j.stderr_line(""));
    assert!(j.stderr_line(&"x".repeat(100)));
    assert_eq!(j.message, format!("{}\u{2026}", "x".repeat(80)));
}

#[test]
fn which_lines_count_up() {
    assert!(line_counts_up(Tool::GalleryDl, "Downloading"));
    assert!(!line_counts_up(Tool::GalleryDl, "[a][1/2] Downloading"));
    assert!(line_counts_up(Tool::Mega, "[a][1/2] Downloading"));
    assert!(!line_counts_up(Tool::Mega, "downloading"));
    assert!(!line_counts_up(Tool::Mega, ""));
}

#[test]
fn what_is_kept_comes_back() {
    let mut j = job("1", "https://mega.nz/x");
    j.start();
    let meta = j.meta();
    assert_eq!(
        (meta.id.as_str(), meta.url.as_str(), meta.source.as_str(), meta.created_at),
        ("1", "https://mega.nz/x", "mega", 17)
    );
    let back = restored_job(meta, 5);
    assert_eq!((&back.id, &back.url, &back.source, back.created_at), (&j.id, &j.url, &j.source, 17));
    assert_eq!(back.status, JobStatus::Done);
    assert_eq!(back.message, "");
    assert_eq!(back.files_done, 5);
    assert!(matches!(back.progress, Progress::Complete));
    let meta = JobMeta { id: String::new(), url: String::new(), source: String::new(), created_at: 0 };
    assert_eq!(restored_job(meta, 0x1_0000_0003).files_done, 3);
}

#[test]
fn only_mega_skips_the_root() {
    assert!(skips_root("mega"));
    assert!(!skips_root("instagram"));
    assert!(!skips_root("unknown"));
    assert!(!skips_root(""));
}

#[test]
fn the_board_keeps_each_job_under_its_identifier() {
    let mut b = JobBoard::new();
    assert_eq!(b.len(), 0);
    let copy = b.queue_as(" https://mega.nz/x ", "a".to_string(), 5).unwrap();
    assert_eq!(copy.url, "https://mega.nz/x");
    assert!(b.queue_as("  ", "b".to_string(), 5).is_none());
    let fresh = b.queue("https://y", 6).unwrap();
    assert!(is_uuid_v4(&fresh.id));
    assert_eq!(b.len(), 2);
    assert_eq!(b.get("a").unwrap().created_at, 5);
    assert_eq!(b.get(&fresh.id).unwrap().url, "https://y");
    assert!(b.get("c").is_none());
    let mut ids: Vec<String> = b.all().into_iter().map(|j| j.id).collect();
    ids.sort();
    let mut expected = vec!["a".to_string(), fresh.id.clone()];
    expected.sort();
    assert_eq!(ids, expected);
    assert!(b.skips_root("a"));
    assert!(!b.skips_root(&fresh.id));
    assert!(!b.skips_root("c"));
}

#[test]
fn the_board_changes_one_job_at_a_time() {
    let mut b = JobBoard::from_jobs(vec![job("a", "u"), job("b", "v"), job("a", "w")]);
    assert_eq!(b.len(), 2);
    assert_eq!(b.get("a").unwrap().url, "w");
    assert_eq!(b.start("a").unwrap().status, JobStatus::Downloading);
    assert!(b.start("c").is_none());
    assert_eq!(b.stdout_line("a", Tool::Mega, "Downloading").unwrap().files_done, 1);
    assert!(b.stdout_line("a", Tool::Mega, " ").is_none());
    assert!(b.stdout_line("c", Tool::Mega, "x").is_none());
    assert_eq!(b.stderr_line("a", "oh").unwrap().message, "oh");
    assert!(b.stderr_line("a", " ").is_none());
    assert!(b.stderr_line("c", "oh").is_none());
    assert_eq!(b.finish("a", Err("no".to_string())).unwrap().status, JobStatus::Failed);
    assert!(b.finish("c", Ok(())).is_none());
    assert_eq!(b.get("a").unwrap().message, "no");
    assert_eq!(b.get("b").unwrap().status, JobStatus::Queued);
    b.insert(job("b", "z"));
    assert_eq!(b.get("b").unwrap().url, "z");
    assert_eq!(b.len(), 2);
}

#[test]
fn queue_requests() {
    let mut b = JobBoard::new();
    let (status, made) = api::queue(&mut b, " https://instagram.com/x ", 9);
    assert_eq!(status, Status::Success);
    let made = made.unwrap();
    assert_eq!(made.source, "instagram");
    assert_eq!(b.get(&made.id).unwrap().created_at, 9);
    let (status, made) = api::queue(&mut b, " ", 9);
    assert_eq!(status, Status::BadRequest);
    assert!(made.is_none());
    assert_eq!(b.len(), 1);
}

#[test]
fn cancel_requests() {
    let mut cancels: Table<u8> = Table::new();
    cancels.insert("a".to_string(), 1);
    cancels.insert("b".to_string(), 2);
    assert_eq!(api::cancel(&mut cancels, "a"), (Status::Success, Some(1)));
    assert_eq!(api::cancel(&mut cancels, "a"), (Status::NotFound, None));
    assert_eq!(cancels.len(), 1);
}

#[test]
fn status_numbers() {
    assert_eq!(Status::Success.code(), 200);
    assert_eq!(Status::PartialContent.code(), 206);
    assert_eq!(Status::BadRequest.code(), 400);
    assert_eq!(Status::Forbidden.code(), 403);
    assert_eq!(Status::NotFound.code(), 404);
    assert_eq!(Status::InternalServerError.code(), 500);
}
