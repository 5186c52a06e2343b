use deepseek_api::{guess_mime, mime_for_extension, poll_step, PollStep};

#[test]
fn mime_from_extension() {
    assert_eq!(guess_mime("test.txt"), "text/plain");
    assert_eq!(guess_mime("photo.jpeg"), "image/jpeg");
    assert_eq!(guess_mime("dir.v2/photo.jpg"), "image/jpeg");
    assert_eq!(guess_mime("a/b/diagram.png"), "image/png");
    assert_eq!(guess_mime("dir/a.png/"), "image/png");
    assert_eq!(guess_mime("paper.tar.pdf"), "application/pdf");
    assert_eq!(guess_mime("notes.TXT"), "application/octet-stream");
    assert_eq!(guess_mime(".txt"), "application/octet-stream");
    assert_eq!(guess_mime("dir.txt/readme"), "application/octet-stream");
    assert_eq!(guess_mime(""), "application/octet-stream");
}

#[test]
fn mime_table() {
    assert_eq!(mime_for_extension(Some("png")), "image/png");
    assert_eq!(mime_for_extension(Some("jpg")), "image/jpeg");
    assert_eq!(mime_for_extension(Some("jpeg")), "image/jpeg");
    assert_eq!(mime_for_extension(Some("pdf")), "application/pdf");
    assert_eq!(mime_for_extension(Some("txt")), "text/plain");
    assert_eq!(mime_for_extension(Some("gif")), "application/octet-stream");
    assert_eq!(mime_for_extension(None), "application/octet-stream");
}

#[test]
fn polling_decisions() {
    assert_eq!(poll_step(&"SUCCESS".to_string(), 0, 3), PollStep::Ready);
    assert_eq!(poll_step(&"ERROR".to_string(), 2, 3), PollStep::Failed);
    assert_eq!(poll_step(&"PENDING".to_string(), 0, 3), PollStep::Wait);
    assert_eq!(poll_step(&"PENDING".to_string(), 2, 3), PollStep::TimedOut);
    assert_eq!(poll_step(&"SUCCESS".to_string(), 2, 3), PollStep::Ready);
}
