use fetch_server::media::{
    kind_for_ext, lower_ext, media_kind, mime_for_ext, video_ext, MediaKind,
};

#[test]
fn images_and_videos_by_extension() {
    for e in ["jpg", "jpeg", "png", "gif", "webp", "avif", "heic", "heif"] {
        assert_eq!(kind_for_ext(e), Some(MediaKind::Image));
        assert!(!video_ext(e));
        assert_eq!(media_kind(&format!("x.{e}")), Some(MediaKind::Image));
    }
    for e in ["mp4", "webm", "mov", "mkv", "avi", "m4v", "3gp"] {
        assert_eq!(kind_for_ext(e), Some(MediaKind::Video));
        assert!(video_ext(e));
        assert_eq!(media_kind(&format!("x.{e}")), Some(MediaKind::Video));
    }
    for e in ["", "txt", "JPG", "mp3", "jpg "] {
        assert_eq!(kind_for_ext(e), None);
    }
}

#[test]
fn the_case_of_an_extension_does_not_count() {
    assert_eq!(media_kind("A.JPG"), Some(MediaKind::Image));
    assert_eq!(media_kind("clip.Mp4"), Some(MediaKind::Video));
    // The Kelvin sign is a capital letter k.
    assert_eq!(media_kind("clip.m\u{212A}v"), Some(MediaKind::Video));
    assert_eq!(lower_ext("/d/A.JPG"), "jpg");
    assert_eq!(lower_ext("/d/A.ÄB"), "äb");
}

#[test]
fn what_stands_after_the_last_dot_decides() {
    assert_eq!(media_kind("a.tar.png"), Some(MediaKind::Image));
    assert_eq!(media_kind("a.png.txt"), None);
    assert_eq!(media_kind("jpg"), Some(MediaKind::Image));
    assert_eq!(media_kind(".jpg"), Some(MediaKind::Image));
    assert_eq!(media_kind("jpg."), None);
    assert_eq!(media_kind(""), None);
}

#[test]
fn extension_of_a_path() {
    assert_eq!(lower_ext("/d/.jpg"), "");
    assert_eq!(lower_ext("/d.x/file"), "");
    assert_eq!(lower_ext("/d/a.MP4/"), "mp4");
    assert_eq!(lower_ext(""), "");
}

#[test]
fn content_types() {
    for (ext, mime) in [
        ("jpg", "image/jpeg"),
        ("jpeg", "image/jpeg"),
        ("png", "image/png"),
        ("gif", "image/gif"),
        ("webp", "image/webp"),
        ("avif", "image/avif"),
        ("mp4", "video/mp4"),
        ("m4v", "video/mp4"),
        ("webm", "video/webm"),
        ("mov", "video/quicktime"),
        ("mkv", "video/x-matroska"),
        ("heic", "application/octet-stream"),
        ("avi", "application/octet-stream"),
        ("PNG", "application/octet-stream"),
        ("", "application/octet-stream"),
    ] {
        assert_eq!(mime_for_ext(ext), mime);
    }
}

#[test]
fn neither_the_stem_nor_the_case_counts() {
    for ext in ["jpg", "heif", "3gp", "MoV", "txt", "", "jp g"] {
        for stem in ["", "a", "a.mp4", "..", "é.png"] {
            assert_eq!(media_kind(&format!("{stem}.{ext}")), media_kind(ext));
        }
        assert_eq!(media_kind(&ext.to_ascii_uppercase()), media_kind(ext));
        assert_eq!(media_kind(&ext.to_ascii_lowercase()), media_kind(ext));
    }
}
