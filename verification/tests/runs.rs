use fetch_server::board::JobBoard;
use fetch_server::job::{new_job, JobStatus, Progress};
use fetch_server::path::{path_components, path_within};
use fetch_server::run::{Action, Event, Read, Run};

fn begun(url: &str) -> (JobBoard, Run) {
    let mut b = JobBoard::new();
    b.queue_as("https://other", "b".to_string(), 1);
    let job = b.queue_as(url, "a".to_string(), 1).unwrap();
    let run = Run::new(&job, "/downloads");
    (b, run)
}

fn listening(url: &str) -> (JobBoard, Run) {
    let (mut b, mut run) = begun(url);
    for event in [Event::FolderTried, Event::CancelRegistered, Event::Launched] {
        run.step(&mut b, event);
    }
    (b, run)
}

fn line(s: &str) -> Read {
    Read::Line(s.to_string())
}

#[test]
fn what_a_run_works_with() {
    let (_, run) = begun("https://mega.nz/x");
    assert_eq!(run.id(), "a");
    assert_eq!(run.dest(), "/downloads/a");
    assert_eq!(run.program(), "megadl");
    assert_eq!(run.args(), ["--path", "/downloads/a", "https://mega.nz/x"]);
    let (_, run) = begun("https://instagram.com/x");
    assert_eq!(run.program(), "gallery-dl");
    assert_eq!(run.args(), ["-D", "/downloads/a", "--no-mtime", "https://instagram.com/x"]);
}

#[test]
fn a_run_that_ends_well() {
    let (mut b, mut run) = begun("https://mega.nz/x");
    assert_eq!(run.action(), Action::CreateFolder);
    assert!(run.step(&mut b, Event::FolderTried).is_none());
    assert_eq!(run.action(), Action::RegisterCancel);
    assert_eq!(b.get("a").unwrap().status, JobStatus::Queued);
    let news = run.step(&mut b, Event::CancelRegistered).unwrap();
    assert_eq!((news.status, news.message.as_str()), (JobStatus::Downloading, "Starting..."));
    assert_eq!(run.action(), Action::Launch);
    assert!(run.step(&mut b, Event::Launched).is_none());
    assert_eq!(run.action(), Action::Listen);
    let news = run.step(&mut b, Event::Stdout(line("Downloading x Progress: 5%"))).unwrap();
    assert_eq!(news.files_done, 1);
    assert!(matches!(&news.progress, Progress::Percent(t) if t == "5"));
    assert!(run.step(&mut b, Event::Stdout(line(" "))).is_none());
    assert!(run.step(&mut b, Event::Stdout(Read::Failed)).is_none());
    assert_eq!(run.step(&mut b, Event::Stderr(line(" oh "))).unwrap().message, "oh");
    assert!(run.step(&mut b, Event::Stderr(line(""))).is_none());
    assert!(run.step(&mut b, Event::Stderr(Read::End)).is_none());
    assert!(run.step(&mut b, Event::Stderr(Read::Failed)).is_none());
    assert_eq!(run.action(), Action::Listen);
    assert!(run.step(&mut b, Event::Stdout(Read::End)).is_none());
    assert_eq!(run.action(), Action::Wait);
    assert_eq!(b.get("a").unwrap().status, JobStatus::Downloading);
    let exited = Event::Exited { success: true, status: "exit status: 0".to_string() };
    assert!(run.step(&mut b, exited).is_none());
    assert_eq!(run.action(), Action::ReleaseCancel);
    let news = run.step(&mut b, Event::CancelReleased).unwrap();
    assert_eq!((news.status, news.message.as_str()), (JobStatus::Done, "Complete"));
    assert!(matches!(news.progress, Progress::Complete));
    assert_eq!(news.files_done, 1);
    assert_eq!(run.action(), Action::Stop);
    assert!(run.step(&mut b, Event::FolderTried).is_none());
    assert_eq!(run.action(), Action::Stop);
    assert_eq!(b.get("b").unwrap().status, JobStatus::Queued);
}

#[test]
fn a_program_that_cannot_be_started() {
    let (mut b, mut run) = begun("https://mega.nz/x");
    run.step(&mut b, Event::FolderTried);
    run.step(&mut b, Event::CancelRegistered);
    run.step(&mut b, Event::LaunchFailed("no such file".to_string()));
    assert_eq!(run.action(), Action::ReleaseCancel);
    let news = run.step(&mut b, Event::CancelReleased).unwrap();
    assert_eq!(news.status, JobStatus::Failed);
    assert_eq!(news.message, "megatools not found: no such file");
    assert!(matches!(news.progress, Progress::Unknown));
}

#[test]
fn a_cancelled_run() {
    let (mut b, mut run) = listening("https://x");
    assert!(run.step(&mut b, Event::CancelRequested).is_none());
    assert_eq!(run.action(), Action::Kill);
    assert!(run.step(&mut b, Event::Stdout(line("late"))).is_none());
    assert_eq!(run.action(), Action::Kill);
    assert!(run.step(&mut b, Event::Killed).is_none());
    assert_eq!(run.action(), Action::ReleaseCancel);
    let news = run.step(&mut b, Event::CancelReleased).unwrap();
    assert_eq!((news.status, news.message.as_str()), (JobStatus::Cancelled, "Cancelled"));
}

#[test]
fn a_program_that_fails() {
    let (mut b, mut run) = listening("https://x");
    run.step(&mut b, Event::Stdout(Read::End));
    run.step(&mut b, Event::Exited { success: false, status: "exit status: 4".to_string() });
    let news = run.step(&mut b, Event::CancelReleased).unwrap();
    assert_eq!(news.status, JobStatus::Failed);
    assert_eq!(news.message, "gallery-dl exited with exit status: 4");
    let (mut b, mut run) = listening("https://x");
    run.step(&mut b, Event::Stdout(Read::End));
    run.step(&mut b, Event::WaitFailed("gone".to_string()));
    let news = run.step(&mut b, Event::CancelReleased).unwrap();
    assert_eq!((news.status, news.message.as_str()), (JobStatus::Failed, "gone"));
}

#[test]
fn events_out_of_turn_change_nothing() {
    let (mut b, mut run) = begun("https://x");
    for event in [Event::Launched, Event::Killed, Event::CancelReleased, Event::CancelRequested] {
        assert!(run.step(&mut b, event).is_none());
        assert_eq!(run.action(), Action::CreateFolder);
    }
}

#[test]
fn room_for_one_more_file() {
    let (mut b, mut run) = listening("https://x");
    let full = Event::Stdout(line("[a][4294967295/4294967295]"));
    assert!(run.has_room(&b, &full));
    assert_eq!(run.step(&mut b, full).unwrap().files_done, u32::MAX);
    assert!(!run.has_room(&b, &Event::Stdout(line("Downloading"))));
    assert!(run.has_room(&b, &Event::Stdout(line("[a][1/2] Downloading"))));
    assert!(run.has_room(&b, &Event::Stderr(line("Downloading"))));
    assert!(run.has_room(&JobBoard::new(), &Event::Stdout(line("Downloading"))));
}

#[test]
fn a_run_without_its_job_goes_on() {
    let (_, mut run) = begun("https://x");
    let mut empty = JobBoard::new();
    run.step(&mut empty, Event::FolderTried);
    assert!(run.step(&mut empty, Event::CancelRegistered).is_none());
    assert_eq!(run.action(), Action::Launch);
    assert_eq!(empty.len(), 0);
}

#[test]
fn jobs_have_folders_of_their_own() {
    let a = new_job("https://x", 1).unwrap();
    let b = new_job("https://x", 1).unwrap();
    let (x, y) = (Run::new(&a, "/downloads"), Run::new(&b, "/downloads"));
    assert!(path_within(x.dest(), "/downloads"));
    assert_eq!(path_components(x.dest()), ["/", "downloads", a.id.as_str()]);
    assert!(!path_within(x.dest(), y.dest()));
    assert!(path_within(x.dest(), x.dest()));
}
