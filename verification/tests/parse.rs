use feedwatch::cycle::{plan_cycle, CycleError, INTERVAL_SECS};
use feedwatch::dedup::stored_cutoff;
use feedwatch::feed::{ParseError, ScanEnd};
use feedwatch::parse::parse_xml;
use feedwatch::record::RecordKind;

fn escape(html: &str) -> String {
    html.replace('&', "&amp;").replace('<', "&lt;").replace('>', "&gt;").replace('"', "&quot;")
}

fn task_html(subject: &str) -> String {
    format!(
        "<p>zero</p><p>{}</p><p>New assignment</p><p>Lab report</p>\
         <p><a href=\"https://bb.example/real\">Open</a></p>\
         <p>t1</p><p>t2</p><p>t3</p><p>t4</p><p>t5</p>",
        subject
    )
}

fn announcement_html() -> String {
    "<p>zero</p><p>Math</p><p>Course announcement</p><p>Midterm posted</p><p>Details here</p>\
     <p><a href=\"https://bb.example/real\">Open</a></p>\
     <p>t1</p><p>t2</p><p>t3</p><p>t4</p><p>t5</p><p>t6</p>"
        .to_string()
}

fn entry(published: &str, title: &str, html: &str) -> String {
    format!(
        "<entry>\n  <published>{}</published>\n  <title>{}</title>\n  <content type=\"html\">{}</content>\n</entry>\n",
        published,
        title,
        escape(html)
    )
}

fn feed(entries: &[String]) -> String {
    format!(
        "<?xml version=\"1.0\" encoding=\"utf-8\"?>\n<feed xmlns=\"http://www.w3.org/2005/Atom\">\n<id>x</id>\n{}</feed>\n",
        entries.concat()
    )
}

fn three_items() -> String {
    feed(&[
        entry("2024-03-03T00:00:00Z", "Newest", &task_html("Physics")),
        entry("2024-03-02T00:00:00Z", "Middle", &announcement_html()),
        entry("2024-03-01T00:00:00Z", "Oldest", &task_html("History")),
    ])
}

const MARCH_1: i64 = 1709251200;
const DAY: i64 = 86400;

#[test]
fn feed_with_one_announcement() {
    let xml = feed(&[entry("2024-03-02T00:00:00Z", "Midterm", &announcement_html())]);
    let pass = parse_xml(&xml, 0, 7).unwrap();
    assert_eq!(pass.records.len(), 1);
    assert_eq!(pass.records[0].kind, RecordKind::Announcement);
    assert_eq!(pass.records[0].subject, "Math");
    assert_eq!(pass.records[0].headline, "New announcement");
    assert_eq!(pass.records[0].body, "Midterm posted\n\nDetails here\n[Open](https://bb.example/real)");
    assert_eq!(pass.end, ScanEnd::EndOfInput);
    assert_eq!(pass.new_cutoff, 7);
}

#[test]
fn feed_with_one_short_task() {
    let xml = feed(&[entry("2024-03-02T00:00:00Z", "Lab", "<p>zero</p><p>Physics</p><p>task</p>")]);
    let pass = parse_xml(&xml, 0, 1234).unwrap();
    assert!(pass.records.is_empty());
    assert_eq!(pass.end, ScanEnd::EndOfInput);
    assert_eq!(pass.new_cutoff, 1234);
}

#[test]
fn first_run_then_unchanged_feed() {
    let xml = three_items();
    let now = MARCH_1 + 10 * DAY;
    let first = parse_xml(&xml, stored_cutoff(&Vec::new()), now).unwrap();
    assert_eq!(first.records.len(), 3);
    assert_eq!(first.end, ScanEnd::EndOfInput);
    let second = parse_xml(&xml, first.new_cutoff, now + 300).unwrap();
    assert!(second.records.is_empty());
    assert_eq!(second.end, ScanEnd::Stopped);
    assert_eq!(second.new_cutoff, now + 300);
}

#[test]
fn failed_fetch_ends_the_cycle() {
    assert_eq!(plan_cycle(None, 0, 99).err(), Some(CycleError::Fetch));
    let next = plan_cycle(Some(&three_items()), 0, 99).unwrap();
    assert_eq!(next.notifications.len(), 3);
    assert_eq!(next.new_cutoff, 99);
}

#[test]
fn items_come_in_document_order() {
    let pass = parse_xml(&three_items(), 0, 1).unwrap();
    let subjects: Vec<&str> = pass.records.iter().map(|r| r.subject.as_str()).collect();
    assert_eq!(subjects, vec!["Physics", "Math", "History"]);
}

#[test]
fn walk_halts_at_the_first_old_item() {
    let pass = parse_xml(&three_items(), MARCH_1 + DAY + 1, 1).unwrap();
    assert_eq!(pass.records.len(), 1);
    assert_eq!(pass.records[0].subject, "Physics");
    assert_eq!(pass.end, ScanEnd::Stopped);
    let all = parse_xml(&three_items(), MARCH_1, 1).unwrap();
    assert_eq!(all.records.len(), 3);
    let none = parse_xml(&three_items(), MARCH_1 + 2 * DAY + 1, 1).unwrap();
    assert!(none.records.is_empty());
    assert_eq!(none.end, ScanEnd::Stopped);
}

#[test]
fn nothing_behind_the_halt_is_read() {
    let xml = format!(
        "<feed>{}<entry><published>2020-01-01T00:00:00Z</published></wrong><published>never</published>",
        entry("2024-03-03T00:00:00Z", "Newest", &task_html("Physics"))
    );
    let pass = parse_xml(&xml, MARCH_1, 1).unwrap();
    assert_eq!(pass.records.len(), 1);
    assert_eq!(pass.end, ScanEnd::Stopped);
    assert_eq!(parse_xml(&xml, 0, 1).err(), Some(ParseError::Malformed));
}

#[test]
fn suppressed_item_is_dropped_once() {
    let xml = feed(&[
        entry("2024-03-03T00:00:00Z", "New content available", &task_html("Physics")),
        entry("2024-03-02T00:00:00Z", "Lab posted", &task_html("History")),
    ]);
    let pass = parse_xml(&xml, 0, 1).unwrap();
    assert_eq!(pass.records.len(), 1);
    assert_eq!(pass.records[0].subject, "History");
}

#[test]
fn suppressing_title_then_two_blocks() {
    let xml = format!(
        "<feed><title>Quiz DUE SOON</title><content>{}</content><content>{}</content></feed>",
        escape(&task_html("Physics")),
        escape(&task_html("History"))
    );
    let pass = parse_xml(&xml, 0, 1).unwrap();
    assert_eq!(pass.records.len(), 1);
    assert_eq!(pass.records[0].subject, "History");
}

#[test]
fn malformed_xml_fails_the_pass() {
    assert_eq!(parse_xml("<feed><entry></feed>", 0, 1).err(), Some(ParseError::Malformed));
    assert_eq!(parse_xml("<feed><title>open", 0, 1).err(), Some(ParseError::Malformed));
    assert_eq!(parse_xml("<feed><content>x</title></feed>", 0, 1).err(), Some(ParseError::Malformed));
    assert_eq!(parse_xml("<feed><published", 0, 1).err(), Some(ParseError::Malformed));
}

#[test]
fn unreadable_published_time_fails_the_pass() {
    let xml = feed(&[entry("last week", "Lab", &task_html("Physics"))]);
    assert_eq!(parse_xml(&xml, 0, 1).err(), Some(ParseError::BadTimestamp));
}

#[test]
fn empty_feeds_end_at_their_end() {
    for xml in ["", "   ", "<feed/>", "<feed></feed>", "<feed><content/><title/></feed>"] {
        let pass = parse_xml(xml, 0, 3).unwrap();
        assert!(pass.records.is_empty());
        assert_eq!(pass.end, ScanEnd::EndOfInput);
        assert_eq!(pass.new_cutoff, 3);
    }
}

#[test]
fn end_tags_respect_nesting() {
    let inner = format!("<content>ignored</content>{}", escape(&task_html("Physics")));
    let xml = format!("<feed><content>{}</content></feed>", inner);
    let pass = parse_xml(&xml, 0, 1).unwrap();
    assert_eq!(pass.records.len(), 1);
    assert_eq!(pass.records[0].subject, "zero");
    let xml = format!(
        "<feed><title>a<title>x</title>new items</title><content>{}</content></feed>",
        escape(&task_html("Physics"))
    );
    assert!(parse_xml(&xml, 0, 1).unwrap().records.is_empty());
}

#[test]
fn cycle_hands_on_records_and_cutoff() {
    let plan = plan_cycle(Some(&three_items()), MARCH_1 + DAY, 555).unwrap();
    assert_eq!(plan.notifications.len(), 2);
    assert_eq!(plan.notifications[0].subject, "Physics");
    assert_eq!(plan.notifications[1].subject, "Math");
    assert_eq!(plan.new_cutoff, 555);
}

#[test]
fn cycle_reports_parse_errors() {
    assert_eq!(
        plan_cycle(Some("<feed><a></b></feed>"), 0, 1).err(),
        Some(CycleError::Parse(ParseError::Malformed))
    );
    assert_eq!(
        plan_cycle(Some("<published>soon</published>"), 0, 1).err(),
        Some(CycleError::Parse(ParseError::BadTimestamp))
    );
}

#[test]
fn cycles_are_five_minutes_apart() {
    assert_eq!(INTERVAL_SECS, 300);
}
