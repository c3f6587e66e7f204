use fetch_server::api;
use fetch_server::board::JobBoard;
use fetch_server::favorites::{Favorite, FavoriteRequest, Favorites};
use fetch_server::job::{queued_job, JobMeta, JobStatus};
use fetch_server::recovery::{
    favorites_file, is_meta_name, meta_file, Finding, Question, Recovery,
};
use fetch_server::socket::{Incoming, Socket, SocketAction, SocketEvent};
use fetch_server::status::Status;

fn request(name: &str) -> FavoriteRequest {
    FavoriteRequest { url: "u".to_string(), kind: "k".to_string(), name: name.to_string() }
}

fn ids(f: &Favorites) -> Vec<&str> {
    f.items().iter().map(|x| x.id.as_str()).collect()
}

fn meta(id: &str) -> JobMeta {
    queued_job("https://mega.nz/x", id.to_string(), 3).unwrap().meta()
}

#[test]
fn favorites_are_added_at_the_end() {
    let mut f = Favorites::from_items(Vec::new());
    let a = f.add_as(request("one"), "a".to_string(), 7);
    assert_eq!(
        (a.id.as_str(), a.url.as_str(), a.kind.as_str(), a.name.as_str(), a.added_at),
        ("a", "u", "k", "one", 7)
    );
    let b = f.add(request("two"), 8);
    let c = f.add(request("two"), 8);
    assert_eq!(b.id.len(), 36);
    assert_ne!(b.id, c.id);
    assert_eq!(ids(&f), ["a", b.id.as_str(), c.id.as_str()]);
    assert_eq!(f.items()[1].name, "two");
}

#[test]
fn removing_undoes_adding() {
    let favorite = |id: &str| Favorite {
        id: id.to_string(),
        url: String::new(),
        kind: String::new(),
        name: String::new(),
        added_at: 0,
    };
    let mut f = Favorites::from_items(vec![favorite("a"), favorite("b"), favorite("a")]);
    f.add_as(request("new"), "c".to_string(), 1);
    assert!(f.remove("c"));
    assert_eq!(ids(&f), ["a", "b", "a"]);
    assert!(!f.remove("c"));
    assert!(f.remove("a"));
    assert_eq!(ids(&f), ["b"]);
    assert_eq!(api::remove_favorite(&mut f, "a"), Status::NotFound);
    assert_eq!(api::remove_favorite(&mut f, "b"), Status::Success);
    assert!(ids(&f).is_empty());
}

#[test]
fn where_things_are_kept() {
    assert_eq!(meta_file("/d", "1"), "/d/1.json");
    assert_eq!(favorites_file("/d/"), "/d/favorites.json");
    assert!(is_meta_name("1.json"));
    assert!(is_meta_name("a.b.json"));
    assert!(is_meta_name("favorites.json"));
    assert!(!is_meta_name(".json"));
    assert!(!is_meta_name("json"));
    assert!(!is_meta_name("1.JSON"));
    assert!(!is_meta_name("1.json.bak"));
}

#[test]
fn jobs_come_back_after_a_restart() {
    let mut r = Recovery::new();
    assert!(matches!(r.question(), Question::NextFile));
    r.answer(Finding::File("notes.txt".to_string()));
    assert!(matches!(r.question(), Question::NextFile));
    r.answer(Finding::File("favorites.json".to_string()));
    assert!(matches!(r.question(), Question::ReadFile));
    r.answer(Finding::Kept(None));
    assert!(matches!(r.question(), Question::NextFile));
    r.answer(Finding::File("gone.json".to_string()));
    r.answer(Finding::Kept(Some(meta("gone"))));
    assert!(matches!(r.question(), Question::HasFolder(m) if m.id == "gone"));
    r.answer(Finding::Folder(false));
    assert!(matches!(r.question(), Question::NextFile));
    r.answer(Finding::File("1.json".to_string()));
    r.answer(Finding::Kept(Some(meta("1"))));
    r.answer(Finding::Folder(true));
    assert!(matches!(r.question(), Question::CountMedia(m) if m.id == "1"));
    r.answer(Finding::Folder(false));
    assert!(matches!(r.question(), Question::CountMedia(m) if m.id == "1"));
    r.answer(Finding::Media(12));
    assert!(matches!(r.question(), Question::NextFile));
    let board = JobBoard::from_jobs(r.into_jobs());
    assert_eq!(board.len(), 1);
    let job = board.get("1").unwrap();
    assert_eq!((job.url.as_str(), job.source.as_str(), job.created_at), ("https://mega.nz/x", "mega", 3));
    assert_eq!((job.status, job.files_done), (JobStatus::Done, 12));
}

#[test]
fn where_a_recovery_looks() {
    let mut r = Recovery::new();
    assert_eq!(r.folder("/d"), None);
    r.answer(Finding::File("1.json".to_string()));
    assert_eq!(r.folder("/d"), None);
    r.answer(Finding::Kept(Some(meta("1"))));
    assert_eq!(r.folder("/d").as_deref(), Some("/d/1"));
    assert!(!r.skips_root());
    r.answer(Finding::Folder(true));
    assert_eq!(r.folder("/d/").as_deref(), Some("/d/1"));
    assert!(r.skips_root());
    r.answer(Finding::Media(0));
    assert_eq!(r.folder("/d"), None);
    assert!(!r.skips_root());
    r.answer(Finding::File("2.json".to_string()));
    let other = queued_job("https://instagram.com/x", "2".to_string(), 3).unwrap().meta();
    r.answer(Finding::Kept(Some(other)));
    r.answer(Finding::Folder(true));
    assert_eq!(r.folder("/d").as_deref(), Some("/d/2"));
    assert!(!r.skips_root());
}

#[test]
fn news_are_forwarded_in_order() {
    let mut s = Socket::new();
    assert!(matches!(s.action(), SocketAction::SendSnapshot));
    s.step(SocketEvent::News(Some("early".to_string())));
    assert!(matches!(s.action(), SocketAction::SendSnapshot));
    s.step(SocketEvent::Sent(true));
    for text in ["one", "two"] {
        assert!(matches!(s.action(), SocketAction::Listen));
        s.step(SocketEvent::News(Some(text.to_string())));
        assert!(matches!(s.action(), SocketAction::Send(t) if t == text));
        s.step(SocketEvent::Sent(true));
    }
    s.step(SocketEvent::Received(Incoming::Message));
    assert!(matches!(s.action(), SocketAction::Listen));
}

#[test]
fn how_a_connection_ends() {
    let mut s = Socket::new();
    s.step(SocketEvent::Sent(false));
    assert!(matches!(s.action(), SocketAction::Stop));
    s.step(SocketEvent::Sent(true));
    assert!(matches!(s.action(), SocketAction::Stop));
    for event in [
        SocketEvent::News(None),
        SocketEvent::Received(Incoming::Close),
        SocketEvent::Received(Incoming::Gone),
    ] {
        let mut s = Socket::new();
        s.step(SocketEvent::Sent(true));
        s.step(event);
        assert!(matches!(s.action(), SocketAction::Stop));
    }
    let mut s = Socket::new();
    s.step(SocketEvent::Sent(true));
    s.step(SocketEvent::News(Some("x".to_string())));
    s.step(SocketEvent::Sent(false));
    assert!(matches!(s.action(), SocketAction::Stop));
}
