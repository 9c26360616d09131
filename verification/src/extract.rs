//! Recovers a record from the normalized lines of one content block.
//!
//! The lines carry no structure of their own: what a line means follows from its
//! place, counted from the start for the header lines and from the end for the link.

use vstd::prelude::*;
use crate::record::{ExtractedRecord, ExtractionError, RecordKind, RecordView};
use crate::text::{
    append, contains, includes, joined, replace, replaced, split_words, to_chars, to_string, views,
    words,
};

verus! {

/// The texts of `lines`, in order.
pub open spec fn texts(lines: Seq<String>) -> Seq<Seq<char>> {
    lines.map_values(|line: String| line@)
}

/// The kind that a type-marker line stands for.
pub open spec fn kind_of(marker: Seq<char>) -> RecordKind {
    if contains(marker, "announcement"@) {
        RecordKind::Announcement
    } else {
        RecordKind::Task
    }
}

/// How many lines of boilerplate follow the link line.
pub open spec fn trailing_lines(kind: RecordKind) -> int {
    match kind {
        RecordKind::Announcement => 6,
        RecordKind::Task => 5,
    }
}

/// The headline of a record of this kind.
pub open spec fn headline_of(kind: RecordKind) -> Seq<char> {
    match kind {
        RecordKind::Announcement => "New announcement"@,
        RecordKind::Task => "New task"@,
    }
}

/// Whether a word is an object identifier.
pub open spec fn is_id(word: Seq<char>) -> bool {
    word.len() > 0 && word[0] == '_'
}

/// The object identifiers of a link line: `=`, `&` and `%` count as blanks, and of
/// the words that are left those that begin with `_` are kept.
pub open spec fn ids_of(link: Seq<char>) -> Seq<Seq<char>> {
    words(replaced(replaced(replaced(link, "="@, " "@), "&"@, " "@), "%"@, " "@)).filter(
        |word: Seq<char>| is_id(word),
    )
}

/// The deep link to the announcement `item` of `course`.
pub open spec fn announcement_link(course: Seq<char>, item: Seq<char>) -> Seq<char> {
    "[View Announcement](https://adamson.blackboard.com/ultra/stream/announcement-detail?courseId="@
        + course + "&announcementId="@ + item + ")"@
}

/// The deep link to the task `item` of `course`.
pub open spec fn task_link(course: Seq<char>, item: Seq<char>) -> Seq<char> {
    "[View Task](https://adamson.blackboard.com/ultra/stream/assessment/"@ + item
        + "/overview?courseId="@ + course + ")"@
}

/// Whether a link line only stands in for the real link.
pub open spec fn is_placeholder(link: Seq<char>) -> bool {
    contains(link, "[View]"@)
}

/// The link of a record: the link line itself, or, for a placeholder, the deep
/// link built from its second and third identifier.
pub open spec fn action_link(kind: RecordKind, link: Seq<char>) -> Seq<char> {
    if is_placeholder(link) {
        match kind {
            RecordKind::Announcement => announcement_link(ids_of(link)[1], ids_of(link)[2]),
            RecordKind::Task => task_link(ids_of(link)[1], ids_of(link)[2]),
        }
    } else {
        link
    }
}

/// The free text of a record: for an announcement the lines from the fifth up to
/// the link line, each on a line of its own between two line feeds; none for a task.
pub open spec fn body_block(kind: RecordKind, lines: Seq<Seq<char>>, link_at: int) -> Seq<char> {
    match kind {
        RecordKind::Announcement => "\n"@ + joined(lines.subrange(4, link_at), "\n"@) + "\n"@,
        RecordKind::Task => Seq::empty(),
    }
}

/// What the lines of one content block yield.
pub open spec fn extraction(lines: Seq<Seq<char>>) -> Result<RecordView, ExtractionError> {
    if lines.len() < 4 {
        Err(ExtractionError::TooFewLines)
    } else {
        let kind = kind_of(lines[2]);
        let link_at = lines.len() - 1 - trailing_lines(kind);
        if link_at < 0 || (kind == RecordKind::Announcement && link_at < 4) {
            Err(ExtractionError::LinkOutOfPlace)
        } else if is_placeholder(lines[link_at]) && ids_of(lines[link_at]).len() < 3 {
            Err(ExtractionError::MissingIds)
        } else {
            let link = action_link(kind, lines[link_at]);
            Ok(
                RecordView {
                    kind,
                    subject: lines[1],
                    headline: headline_of(kind),
                    body: lines[3] + "\n"@ + body_block(kind, lines, link_at) + link,
                    action_link: link,
                },
            )
        }
    }
}

/// Whether `out` is what the extractor may return for `lines`.
pub open spec fn is_extraction_of(
    out: Result<ExtractedRecord, ExtractionError>,
    lines: Seq<Seq<char>>,
) -> bool {
    match extraction(lines) {
        Ok(record) => out matches Ok(found) && found@ == record,
        Err(error) => out == Err::<ExtractedRecord, ExtractionError>(error),
    }
}

/// The lines as rows of characters.
fn rows_of(lines: &Vec<String>) -> (out: Vec<Vec<char>>)
    ensures
        views(out@) == texts(lines@),
{
    let mut out: Vec<Vec<char>> = Vec::new();
    let mut i: usize = 0;
    while i < lines.len()
        invariant
            i <= lines.len(),
            out@.len() == i,
            forall|k: int| 0 <= k < i ==> (#[trigger] out@[k])@ == lines@[k]@,
        decreases lines.len() - i,
    {
        out.push(to_chars(lines[i].as_str()));
        i += 1;
    }
    assert(views(out@) =~= texts(lines@));
    out
}

/// Computes `ids_of`.
fn id_words(link: &Vec<char>) -> (out: Vec<Vec<char>>)
    ensures
        views(out@) == ids_of(link@),
{
    let blank = to_chars(" ");
    let step1 = replace(link, &to_chars("="), &blank);
    let step2 = replace(&step1, &to_chars("&"), &blank);
    let step3 = replace(&step2, &to_chars("%"), &blank);
    let all = split_words(&step3);
    let ghost keep = |word: Seq<char>| is_id(word);
    let mut out: Vec<Vec<char>> = Vec::new();
    let mut i: usize = 0;
    proof {
        reveal(Seq::filter);
        assert(views(all@).take(0) =~= Seq::<Seq<char>>::empty());
    }
    while i < all.len()
        invariant
            i <= all.len(),
            keep == (|word: Seq<char>| is_id(word)),
            views(out@) == views(all@).take(i as int).filter(keep),
        decreases all.len() - i,
    {
        let ghost head = views(all@).take(i as int);
        let ghost before = out@;
        proof {
            reveal(Seq::filter);
            assert(views(all@).take(i + 1) =~= head.push(all@[i as int]@));
            assert(head.push(all@[i as int]@).drop_last() =~= head);
        }
        if all[i].len() > 0 && all[i][0] == '_' {
            out.push(all[i].clone());
            assert(out@.last()@ == all@[i as int]@);
            assert(views(out@) =~= views(before).push(all@[i as int]@));
        }
        i += 1;
    }
    assert(views(all@).take(all.len() as int) =~= views(all@));
    out
}

/// The rows from `from` up to `to`, with `sep` between neighbours.
fn join_rows(rows: &Vec<Vec<char>>, from: usize, to: usize, sep: &Vec<char>) -> (out: Vec<char>)
    requires
        from <= to <= rows.len(),
    ensures
        out@ == joined(views(rows@).subrange(from as int, to as int), sep@),
{
    let mut out: Vec<char> = Vec::new();
    let mut i: usize = from;
    assert(views(rows@).subrange(from as int, from as int) =~= Seq::<Seq<char>>::empty());
    while i < to
        invariant
            from <= i <= to <= rows.len(),
            out@ == joined(views(rows@).subrange(from as int, i as int), sep@),
        decreases to - i,
    {
        let ghost head = views(rows@).subrange(from as int, i as int);
        let ghost next = views(rows@).subrange(from as int, i + 1);
        proof {
            assert(next.drop_last() =~= head);
            assert(next.last() == rows@[i as int]@);
        }
        if i > from {
            append(&mut out, sep);
        }
        append(&mut out, &rows[i]);
        proof {
            if i == from {
                assert(out@ =~= rows@[i as int]@);
            }
        }
        i += 1;
    }
    out
}

/// The link of a record whose link line is `link`; nothing where the line is a
/// placeholder with too few identifiers.
fn build_link(kind: RecordKind, link: &Vec<char>) -> (out: Option<Vec<char>>)
    ensures
        out is None <==> is_placeholder(link@) && ids_of(link@).len() < 3,
        out matches Some(built) ==> built@ == action_link(kind, link@),
{
    if !includes(link, &to_chars("[View]")) {
        return Some(link.clone());
    }
    let ids = id_words(link);
    assert(views(ids@).len() == ids@.len());
    if ids.len() < 3 {
        return None;
    }
    assert(views(ids@)[1] == ids@[1]@ && views(ids@)[2] == ids@[2]@);
    let mut out: Vec<char> = Vec::new();
    match kind {
        RecordKind::Announcement => {
            append(
                &mut out,
                &to_chars(
                    "[View Announcement](https://adamson.blackboard.com/ultra/stream/announcement-detail?courseId=",
                ),
            );
            append(&mut out, &ids[1]);
            append(&mut out, &to_chars("&announcementId="));
            append(&mut out, &ids[2]);
            append(&mut out, &to_chars(")"));
        },
        RecordKind::Task => {
            append(
                &mut out,
                &to_chars("[View Task](https://adamson.blackboard.com/ultra/stream/assessment/"),
            );
            append(&mut out, &ids[2]);
            append(&mut out, &to_chars("/overview?courseId="));
            append(&mut out, &ids[1]);
            append(&mut out, &to_chars(")"));
        },
    }
    assert(out@ =~= action_link(kind, link@));
    Some(out)
}

/// Recovers the record from the lines of one content block.
///
/// The second, third and fourth line are the subject, the type marker and the
/// activity name. The link line stands six lines before the last line of an
/// announcement and five before that of a task.
pub fn extract_rows(rows: &Vec<Vec<char>>) -> (out: Result<ExtractedRecord, ExtractionError>)
    ensures
        is_extraction_of(out, views(rows@)),
{
    let ghost lines = views(rows@);
    if rows.len() < 4 {
        return Err(ExtractionError::TooFewLines);
    }
    assert(lines[1] == rows@[1]@ && lines[2] == rows@[2]@ && lines[3] == rows@[3]@);
    let announcement = includes(&rows[2], &to_chars("announcement"));
    let kind = if announcement {
        RecordKind::Announcement
    } else {
        RecordKind::Task
    };
    let trailing: usize = if announcement {
        6
    } else {
        5
    };
    if rows.len() - 1 < trailing {
        return Err(ExtractionError::LinkOutOfPlace);
    }
    let link_at: usize = rows.len() - 1 - trailing;
    if announcement && link_at < 4 {
        return Err(ExtractionError::LinkOutOfPlace);
    }
    assert(lines[link_at as int] == rows@[link_at as int]@);
    let link = match build_link(kind, &rows[link_at]) {
        Some(link) => link,
        None => {
            return Err(ExtractionError::MissingIds);
        },
    };
    let feed = to_chars("\n");
    let mut body: Vec<char> = rows[3].clone();
    append(&mut body, &feed);
    if announcement {
        append(&mut body, &feed);
        append(&mut body, &join_rows(rows, 4, link_at, &feed));
        append(&mut body, &feed);
    }
    append(&mut body, &link);
    assert(body@ =~= lines[3] + "\n"@ + body_block(kind, lines, link_at as int) + link@);
    let headline = if announcement {
        "New announcement"
    } else {
        "New task"
    };
    Ok(
        ExtractedRecord {
            kind,
            subject: to_string(&rows[1]),
            headline: headline.to_owned(),
            body: to_string(&body),
            action_link: to_string(&link),
        },
    )
}

/// Recovers the record from the lines of one content block, given as strings.
pub fn extract_record(lines: &Vec<String>) -> (out: Result<ExtractedRecord, ExtractionError>)
    ensures
        is_extraction_of(out, texts(lines@)),
{
    extract_rows(&rows_of(lines))
}

/// The extractor is deterministic: two results for the same lines are both the
/// same failure, or both records with the same content.
pub proof fn lemma_extraction_is_deterministic(
    one: Result<ExtractedRecord, ExtractionError>,
    other: Result<ExtractedRecord, ExtractionError>,
    lines: Seq<Seq<char>>,
)
    requires
        is_extraction_of(one, lines),
        is_extraction_of(other, lines),
    ensures
        one is Ok <==> other is Ok,
        one is Ok ==> one->Ok_0@ == other->Ok_0@,
        one is Err ==> one->Err_0 == other->Err_0,
{
}

} // verus!
