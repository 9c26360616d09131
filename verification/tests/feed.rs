use feedwatch::feed::{
    cutoff_reached, is_suppressing, record_from_content, record_from_markdown, FeedElement,
    ParseError, Scanner,
};
use feedwatch::record::{ExtractionError, RecordKind};

fn task_markdown() -> String {
    [
        "zero",
        "Physics",
        "New assignment",
        "Lab report",
        "[View](https://bb.example/launch?a=_1_1&b=_22_1&c=_33_1&x)",
        "t1",
        "t2",
        "t3",
        "t4",
        "t5",
    ]
    .join("\n")
}

fn task_content() -> String {
    let html = "<p>zero</p><p>Physics</p><p>New assignment</p><p>Lab report</p>\
        <p><a href=\"https://bb.example/real\">Open</a></p>\
        <p>t1</p><p>t2</p><p>t3</p><p>t4</p><p>t5</p>";
    html.replace('&', "&amp;").replace('<', "&lt;").replace('>', "&gt;").replace('"', "&quot;")
}

#[test]
fn suppressing_titles() {
    assert!(is_suppressing("Submission Received: Lab 1"));
    assert!(is_suppressing("NEW CONTENT available"));
    assert!(is_suppressing("3 new items"));
    assert!(is_suppressing("Quiz due soon"));
    assert!(!is_suppressing("Midterm posted"));
    assert!(!is_suppressing("new  items"));
    assert!(!is_suppressing(""));
}

#[test]
fn cutoff_is_strict() {
    assert!(cutoff_reached(9, 10));
    assert!(!cutoff_reached(10, 10));
    assert!(!cutoff_reached(11, 10));
    assert!(cutoff_reached(i64::MIN, 0));
    assert!(!cutoff_reached(0, i64::MIN));
}

#[test]
fn markdown_yields_a_record() {
    let record = record_from_markdown(&task_markdown()).unwrap();
    assert_eq!(record.kind, RecordKind::Task);
    assert_eq!(record.subject, "Physics");
    assert_eq!(
        record.action_link,
        "[View Task](https://adamson.blackboard.com/ultra/stream/assessment/_33_1/overview?courseId=_22_1)"
    );
}

#[test]
fn markdown_noise_does_not_count_as_a_line() {
    let noisy = task_markdown().replace("Physics\n", "|\nPhysics\nthis message supports x\n");
    assert_eq!(record_from_markdown(&noisy), record_from_markdown(&task_markdown()));
    assert_eq!(record_from_markdown("a\nb\n|\nc\n|"), Err(ExtractionError::TooFewLines));
}

#[test]
fn content_is_unescaped_and_rendered() {
    let record = record_from_content(&task_content()).unwrap();
    assert_eq!(record.kind, RecordKind::Task);
    assert_eq!(record.subject, "Physics");
    assert_eq!(record.headline, "New task");
    assert_eq!(record.action_link, "[Open](https://bb.example/real)");
    assert_eq!(record.body, "Lab report\n[Open](https://bb.example/real)");
    assert_eq!(record_from_content("&lt;p&gt;only&lt;/p&gt;"), None);
}

#[test]
fn published_times_are_compared_in_seconds() {
    let mut scanner = Scanner::new();
    let at = FeedElement::Published("2024-01-01T00:00:00Z".to_string());
    assert_eq!(scanner.visit(&at, 1704067200), Ok(false));
    assert_eq!(scanner.visit(&at, 1704067201), Ok(true));
    assert_eq!(scanner.visit(&at, 1704067199), Ok(false));
    let shifted = FeedElement::Published("2024-01-01T08:00:00.750+08:00".to_string());
    assert_eq!(scanner.visit(&shifted, 1704067200), Ok(false));
    assert_eq!(scanner.visit(&shifted, 1704067201), Ok(true));
    let early = FeedElement::Published("1969-12-31T23:59:59.500Z".to_string());
    assert_eq!(scanner.visit(&early, -1), Ok(false));
    assert_eq!(scanner.visit(&early, 0), Ok(true));
}

#[test]
fn unreadable_time_fails_the_walk() {
    let mut scanner = Scanner::new();
    for text in ["yesterday", "", "2024-01-01", "2024-13-01T00:00:00Z", "1704067200"] {
        let at = FeedElement::Published(text.to_string());
        assert_eq!(scanner.visit(&at, 0), Err(ParseError::BadTimestamp));
    }
    assert!(scanner.finish().is_empty());
}

#[test]
fn suppression_drops_one_block_only() {
    let mut scanner = Scanner::new();
    assert_eq!(scanner.visit(&FeedElement::Title("Submission received".to_string()), 0), Ok(false));
    assert_eq!(scanner.visit(&FeedElement::Content(task_content()), 0), Ok(false));
    assert_eq!(scanner.visit(&FeedElement::Content(task_content()), 0), Ok(false));
    let records = scanner.finish();
    assert_eq!(records.len(), 1);
    assert_eq!(records[0].subject, "Physics");
}

#[test]
fn flag_outlasts_other_titles() {
    let mut scanner = Scanner::new();
    assert_eq!(scanner.visit(&FeedElement::Title("Quiz due soon".to_string()), 0), Ok(false));
    assert_eq!(scanner.visit(&FeedElement::Title("Midterm posted".to_string()), 0), Ok(false));
    assert_eq!(scanner.visit(&FeedElement::Content(task_content()), 0), Ok(false));
    assert!(scanner.finish().is_empty());
}

#[test]
fn failed_extraction_goes_on() {
    let mut scanner = Scanner::new();
    assert_eq!(scanner.visit(&FeedElement::Content("&lt;p&gt;x&lt;/p&gt;".to_string()), 0), Ok(false));
    assert_eq!(scanner.visit(&FeedElement::Content(task_content()), 0), Ok(false));
    assert_eq!(scanner.finish().len(), 1);
}
