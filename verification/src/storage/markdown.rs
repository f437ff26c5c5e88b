//! The record document: a header between two marker lines, a title heading, a body.
//!
//! This module frames and unframes the three sections. What the header holds is a matter
//! for its own codec; here it is text that travels between the markers.

use crate::domain::issue::IssueView;
use crate::error::ItackError;
use crate::text::{
    chars_of, find_from, first_occurrence, has_at, is_space, lemma_first_occurrence_is, occurs_at,
    skip_newlines, skip_newlines_from, skip_spaces, skip_spaces_from, string_of,
};
use vstd::prelude::*;
use vstd::string::StringExecFns;

verus! {

/// The marker line that opens and closes the header.
pub open spec fn marker() -> Seq<char> {
    seq!['-', '-', '-']
}

/// What starts the title line.
pub open spec fn heading_mark() -> Seq<char> {
    seq!['#', ' ']
}

/// The ways in which a document can fail to be a record.
pub enum FormatFault {
    /// The first thing in the document that is not white space is not a marker.
    MissingFrontMatter,
    /// No marker closes the header.
    UnclosedFrontMatter,
    /// What follows the header does not start with a title heading.
    MissingTitle,
}

impl FormatFault {
    /// The explanation carried by the error for this fault.
    pub open spec fn reason(self) -> Seq<char> {
        match self {
            FormatFault::MissingFrontMatter => "Missing YAML front matter"@,
            FormatFault::UnclosedFrontMatter => "Unclosed YAML front matter"@,
            FormatFault::MissingTitle => "Missing title heading (# Title)"@,
        }
    }
}

/// The header between the first two markers, and what follows the closing marker once the
/// line feeds after it are dropped.
pub open spec fn split_front_matter(content: Seq<char>) -> Result<
    (Seq<char>, Seq<char>),
    FormatFault,
> {
    let start = skip_spaces(content, 0);
    if !occurs_at(content, start, marker()) {
        Err(FormatFault::MissingFrontMatter)
    } else {
        match first_occurrence(content, start + 3, marker()) {
            None => Err(FormatFault::UnclosedFrontMatter),
            Some(end) => Ok(
                (
                    content.subrange(start + 3, end),
                    content.subrange(skip_newlines(content, end + 3), content.len() as int),
                ),
            ),
        }
    }
}

/// The title on the first line of `body`, which must be a heading, and the rest of `body`
/// once the line feeds after the title are dropped.
pub open spec fn split_title(body: Seq<char>) -> Option<(Seq<char>, Seq<char>)> {
    if !occurs_at(body, 0, heading_mark()) {
        None
    } else {
        let line_end = match first_occurrence(body, 2, seq!['\n']) {
            Some(i) => i,
            None => body.len() as int,
        };
        Some(
            (
                body.subrange(2, line_end),
                body.subrange(skip_newlines(body, line_end), body.len() as int),
            ),
        )
    }
}

/// The header, title and body of a record document.
pub open spec fn parsed(content: Seq<char>) -> Result<
    (Seq<char>, Seq<char>, Seq<char>),
    FormatFault,
> {
    match split_front_matter(content) {
        Err(fault) => Err(fault),
        Ok((header, rest)) => match split_title(rest) {
            None => Err(FormatFault::MissingTitle),
            Some((title, body)) => Ok((header, title, body)),
        },
    }
}

/// The body as a document stores it: as given, closed by a line feed unless it is empty.
pub open spec fn stored_body(body: Seq<char>) -> Seq<char> {
    if body.len() == 0 || body.last() == '\n' {
        body
    } else {
        body.push('\n')
    }
}

/// The document for a header, a title and a body.
pub open spec fn formatted(header: Seq<char>, title: Seq<char>, body: Seq<char>) -> Seq<char> {
    seq!['-', '-', '-', '\n'] + header + seq!['-', '-', '-', '\n', '\n', '#', ' '] + title
        + seq!['\n'] + (if body.len() == 0 {
        Seq::<char>::empty()
    } else {
        seq!['\n'] + stored_body(body)
    })
}

/// The error that reports `fault`.
fn invalid(fault: FormatFault) -> (e: ItackError)
    ensures
        e matches ItackError::InvalidMarkdown(reason) && reason@ == fault.reason(),
{
    let reason = match fault {
        FormatFault::MissingFrontMatter => "Missing YAML front matter".to_owned(),
        FormatFault::UnclosedFrontMatter => "Unclosed YAML front matter".to_owned(),
        FormatFault::MissingTitle => "Missing title heading (# Title)".to_owned(),
    };
    ItackError::InvalidMarkdown(reason)
}

/// Splits a document into its header and what follows the header.
pub fn front_matter(content: &str) -> (r: Result<(String, String), ItackError>)
    ensures
        match split_front_matter(content@) {
            Ok((header, rest)) => r matches Ok((h, b)) && h@ == header && b@ == rest,
            Err(fault) => r matches Err(ItackError::InvalidMarkdown(reason)) && reason@
                == fault.reason(),
        },
{
    let text = chars_of(content);
    let mut mark: Vec<char> = Vec::new();
    mark.push('-');
    mark.push('-');
    mark.push('-');
    assert(mark@ =~= marker());
    let start = skip_spaces_from(&text, 0);
    if !has_at(&text, start, &mark) {
        return Err(invalid(FormatFault::MissingFrontMatter));
    }
    match find_from(&text, start + 3, &mark) {
        None => Err(invalid(FormatFault::UnclosedFrontMatter)),
        Some(end) => {
            proof {
                crate::text::lemma_first_occurrence(text@, start + 3, mark@);
            }
            let header = string_of(&text, start + 3, end);
            let after = skip_newlines_from(&text, end + 3);
            let rest = string_of(&text, after, text.len());
            Ok((header, rest))
        },
    }
}

/// Extract the title from the H1 heading and return (title, remaining body).
pub fn extract_title_heading(body: &str) -> (r: Result<(String, String), ItackError>)
    ensures
        match split_title(body@) {
            Some((title, rest)) => r matches Ok((t, b)) && t@ == title && b@ == rest,
            None => r matches Err(ItackError::InvalidMarkdown(reason)) && reason@
                == FormatFault::MissingTitle.reason(),
        },
{
    let text = chars_of(body);
    let mut mark: Vec<char> = Vec::new();
    mark.push('#');
    mark.push(' ');
    assert(mark@ =~= heading_mark());
    if !has_at(&text, 0, &mark) {
        return Err(invalid(FormatFault::MissingTitle));
    }
    let mut line_feed: Vec<char> = Vec::new();
    line_feed.push('\n');
    assert(line_feed@ =~= seq!['\n']);
    let line_end = match find_from(&text, 2, &line_feed) {
        Some(i) => {
            proof {
                crate::text::lemma_first_occurrence(text@, 2, line_feed@);
            }
            i
        },
        None => text.len(),
    };
    let title = string_of(&text, 2, line_end);
    let after = skip_newlines_from(&text, line_end);
    let rest = string_of(&text, after, text.len());
    Ok((title, rest))
}

/// Parse a record document.
/// Returns the header text, the title (from the H1 heading), and the body (without the
/// title heading).
pub fn parse_issue(content: &str) -> (r: Result<(String, String, String), ItackError>)
    ensures
        match parsed(content@) {
            Ok((header, title, body)) => r matches Ok((h, t, b)) && h@ == header && t@ == title
                && b@ == body,
            Err(fault) => r matches Err(ItackError::InvalidMarkdown(reason)) && reason@
                == fault.reason(),
        },
{
    match front_matter(content) {
        Err(e) => Err(e),
        Ok((header, rest)) => match extract_title_heading(rest.as_str()) {
            Err(e) => Err(e),
            Ok((title, body)) => Ok((header, title, body)),
        },
    }
}

/// Format a record document from its header text, its title and its body.
/// The title is stored as an H1 heading in the body, not in the header.
pub fn format_issue(header: &str, title: &str, body: &str) -> (r: String)
    ensures
        r@ == formatted(header@, title@, body@),
{
    proof {
        reveal_strlit("---\n");
        reveal_strlit("---\n\n# ");
        reveal_strlit("\n");
    }
    let mut result = "---\n".to_owned();
    assert(result@ =~= seq!['-', '-', '-', '\n']);
    result.append(header);
    result.append("---\n\n# ");
    assert("---\n\n# "@ =~= seq!['-', '-', '-', '\n', '\n', '#', ' ']);
    result.append(title);
    result.append("\n");
    assert("\n"@ =~= seq!['\n']);
    let text = chars_of(body);
    if text.len() > 0 {
        result.append("\n");
        result.append(body);
        if text[text.len() - 1] != '\n' {
            result.append("\n");
            assert(result@ =~= formatted(header@, title@, body@));
        } else {
            assert(result@ =~= formatted(header@, title@, body@));
        }
    } else {
        assert(result@ =~= formatted(header@, title@, body@));
    }
    result
}

/// A header can travel between the markers when the closing marker is the first marker
/// after the opening one.
pub open spec fn header_travels(header: Seq<char>) -> bool {
    forall|j: int|
        0 <= j < 1 + header.len() ==> !occurs_at(seq!['\n'] + header + marker(), j, marker())
}

/// Parsing a formatted document gives back what was formatted: the header behind the line
/// feed that ends the opening marker line, the title, and the body as stored. This holds
/// when the header can travel between the markers, the title is one line, and the body
/// does not start with a line feed.
pub proof fn lemma_parse_format_round_trip(header: Seq<char>, title: Seq<char>, body: Seq<char>)
    requires
        header_travels(header),
        !title.contains('\n'),
        body.len() > 0 ==> body[0] != '\n',
    ensures
        parsed(formatted(header, title, body)) == Ok::<
            (Seq<char>, Seq<char>, Seq<char>),
            FormatFault,
        >((seq!['\n'] + header, title, stored_body(body))),
{
    let doc = formatted(header, title, body);
    let hl = header.len() as int;
    let tl = title.len() as int;
    let framed = seq!['\n'] + header + marker();
    assert(doc.len() >= hl + 12 + tl);
    assert(doc[0] == '-');
    assert(!is_space('-'));
    assert(skip_spaces(doc, 0) == 0);
    assert(doc.subrange(0, 3) =~= marker());
    assert(doc.subrange(3, hl + 7) =~= framed);
    assert forall|j: int| 3 <= j < hl + 4 implies !occurs_at(doc, j, marker()) by {
        assert(!occurs_at(framed, j - 3, marker()));
        assert(doc.subrange(j, j + 3) =~= framed.subrange(j - 3, j));
    }
    assert(doc.subrange(hl + 4, hl + 7) =~= marker());
    lemma_first_occurrence_is(doc, 3, marker(), hl + 4);
    assert(doc.subrange(3, hl + 4) =~= seq!['\n'] + header);
    assert(doc[hl + 7] == '\n');
    assert(doc[hl + 8] == '\n');
    assert(doc[hl + 9] == '#');
    assert(skip_newlines(doc, hl + 9) == hl + 9);
    assert(skip_newlines(doc, hl + 8) == hl + 9);
    assert(skip_newlines(doc, hl + 7) == hl + 9);
    let rest = doc.subrange(hl + 9, doc.len() as int);
    assert(split_front_matter(doc) == Ok::<(Seq<char>, Seq<char>), FormatFault>(
        (seq!['\n'] + header, rest),
    ));
    assert(rest.subrange(0, 2) =~= heading_mark());
    assert(rest.subrange(2, 2 + tl) =~= title);
    assert(rest[2 + tl] == '\n');
    assert forall|j: int| 2 <= j < 2 + tl implies !occurs_at(rest, j, seq!['\n']) by {
        if occurs_at(rest, j, seq!['\n']) {
            assert(rest.subrange(j, j + 1)[0] == '\n');
            assert(title[j - 2] == '\n');
            assert(title.contains('\n'));
        }
    }
    assert(rest.subrange(2 + tl, 3 + tl) =~= seq!['\n']);
    lemma_first_occurrence_is(rest, 2, seq!['\n'], 2 + tl);
    if body.len() == 0 {
        assert(rest.len() == 3 + tl);
        assert(skip_newlines(rest, 3 + tl) == 3 + tl);
        assert(skip_newlines(rest, 2 + tl) == 3 + tl);
        assert(rest.subrange(3 + tl, rest.len() as int) =~= stored_body(body));
    } else {
        assert(rest[3 + tl] == '\n');
        assert(rest[4 + tl] == body[0]);
        assert(skip_newlines(rest, 4 + tl) == 4 + tl);
        assert(skip_newlines(rest, 3 + tl) == 4 + tl);
        assert(skip_newlines(rest, 2 + tl) == 4 + tl);
        assert(rest.subrange(4 + tl, rest.len() as int) =~= stored_body(body));
    }
}

/// A record survives the way through a document: where a header codec reads back the
/// records that it writes, and writes headers that can travel between the markers, the
/// document built around the written header gives the record back, with its title and
/// its stored body.
pub proof fn lemma_record_round_trip(
    encode: spec_fn(IssueView) -> Seq<char>,
    decode: spec_fn(Seq<char>) -> Option<IssueView>,
    record: IssueView,
    title: Seq<char>,
    body: Seq<char>,
)
    requires
        header_travels(encode(record)),
        decode(seq!['\n'] + encode(record)) == Some(record),
        !title.contains('\n'),
        body.len() > 0 ==> body[0] != '\n',
    ensures
        match parsed(formatted(encode(record), title, body)) {
            Ok((header, t, b)) => decode(header) == Some(record) && t == title && b
                == stored_body(body),
            Err(_) => false,
        },
{
    lemma_parse_format_round_trip(encode(record), title, body);
}

/// Encoding is deterministic: formatting what was parsed from a formatted document gives
/// that document again, character by character, so that a record that is read and written
/// back unchanged is stored as the same content.
pub proof fn lemma_reformat_is_identical(header: Seq<char>, title: Seq<char>, body: Seq<char>)
    requires
        header_travels(header),
        !title.contains('\n'),
        body.len() > 0 ==> body[0] != '\n',
    ensures
        match parsed(formatted(header, title, body)) {
            Ok((h, t, b)) => formatted(h.subrange(1, h.len() as int), t, b) == formatted(
                header,
                title,
                body,
            ),
            Err(_) => false,
        },
{
    lemma_parse_format_round_trip(header, title, body);
    lemma_format_is_stable(header, title, body);
    let h = seq!['\n'] + header;
    assert(h.subrange(1, h.len() as int) =~= header);
}

/// Formatting is deterministic on the stored form: a body that is already stored formats
/// to the same document as the body it was stored from.
pub proof fn lemma_format_is_stable(header: Seq<char>, title: Seq<char>, body: Seq<char>)
    ensures
        stored_body(stored_body(body)) == stored_body(body),
        formatted(header, title, stored_body(body)) == formatted(header, title, body),
{
}

} // verus!
