use fetch_server::lines::{parse_gallery_dl_counter, parse_mega_progress, truncate};
use fetch_server::source::{detect_source, Tool};

#[test]
fn counter_behind_the_last_brackets() {
    assert_eq!(parse_gallery_dl_counter("[instagram][3/12] a.jpg"), Some((3, 12)));
    assert_eq!(parse_gallery_dl_counter("x][1/2][ 3 / 4 ]"), Some((3, 4)));
    assert_eq!(parse_gallery_dl_counter("][7/8"), Some((7, 8)));
    assert_eq!(parse_gallery_dl_counter("][+7/08]"), Some((7, 8)));
    assert_eq!(parse_gallery_dl_counter("][4294967295/4294967295]"), Some((u32::MAX, u32::MAX)));
}

#[test]
fn lines_without_a_counter() {
    for line in [
        "", "[3/12]", "[a] [3/12]", "][312]", "][3/12/4]", "][/12]", "][3/]", "][x/12]", "][-3/12]",
        "][4294967296/1]", "][1/2][x]",
    ] {
        assert_eq!(parse_gallery_dl_counter(line), None, "{:?}", line);
    }
}

#[test]
fn a_written_counter_is_read() {
    for (a, b) in [(0, 0), (1, 2), (10, 999), (u32::MAX, 1)] {
        let line = format!("[site][{a}/{b}] name");
        assert_eq!(parse_gallery_dl_counter(&line), Some((a, b)));
    }
}

#[test]
fn percentages() {
    let percent = |line: &str| parse_mega_progress(line).map(|t| t.parse::<f64>().unwrap());
    assert_eq!(percent("x Progress: 12.5 % of 3"), Some(12.5));
    assert_eq!(percent("Progress:100%"), Some(100.0));
    assert_eq!(percent("Progress: 1% Progress: 2%"), Some(1.0));
    assert_eq!(percent("é Progress: -0.5e1%"), Some(-5.0));
    assert_eq!(parse_mega_progress("Progress:  7.50 %").as_deref(), Some("7.50"));
    for line in ["", "12%", "Progress: 12", "Progress: %", "Progress: a1%", "progress: 1%", "Progress: 1 2%"] {
        assert_eq!(parse_mega_progress(line), None, "{:?}", line);
    }
}

#[test]
fn shortening() {
    assert_eq!(truncate("abc", 3), "abc");
    assert_eq!(truncate("abc", 2), "ab\u{2026}");
    assert_eq!(truncate("abc", 0), "\u{2026}");
    assert_eq!(truncate("", 0), "");
    assert_eq!(truncate("äöü", 2), "äö\u{2026}");
    let long = "x".repeat(200);
    assert_eq!(truncate(&long, 80).chars().count(), 81);
    assert!(long.starts_with(&truncate(&long, 80)[..80]));
}

#[test]
fn sources() {
    for (url, source) in [
        ("https://mega.nz/folder/x", "mega"),
        ("https://mega.co.nz/#F!x", "mega"),
        ("https://www.instagram.com/p/x", "instagram"),
        ("https://instagr.am/p/x", "instagram"),
        ("https://instagram.com/?next=mega.nz", "mega"),
        ("https://MEGA.NZ/x", "unknown"),
        ("https://example.org", "unknown"),
        ("", "unknown"),
    ] {
        assert_eq!(detect_source(url), source, "{:?}", url);
    }
}

#[test]
fn tools() {
    assert_eq!(Tool::for_source("mega"), Tool::Mega);
    assert_eq!(Tool::for_source("instagram"), Tool::GalleryDl);
    assert_eq!(Tool::for_source("unknown"), Tool::GalleryDl);
    assert_eq!(Tool::for_source(""), Tool::GalleryDl);
    assert_eq!(Tool::GalleryDl.program(), "gallery-dl");
    assert_eq!(Tool::Mega.program(), "megadl");
    assert_eq!(Tool::GalleryDl.args("/d/1", "u"), ["-D", "/d/1", "--no-mtime", "u"]);
    assert_eq!(Tool::Mega.args("/d/1", "u"), ["--path", "/d/1", "u"]);
    assert_eq!(Tool::GalleryDl.not_found("no such file"), "gallery-dl not found: no such file");
    assert_eq!(Tool::Mega.not_found("no such file"), "megatools not found: no such file");
    assert_eq!(Tool::GalleryDl.exited("exit status: 1"), "gallery-dl exited with exit status: 1");
    assert_eq!(Tool::Mega.exited("signal: 9"), "megadl exited with signal: 9");
}
