//! The parser for the positional lines of the database audit log.
//!
//! A line has a prefix of fixed width, 37 characters that hold a timestamp
//! and a session, and then one of the markers `" Query "`, `" Connect "` or
//! `" Quit"`. Whatever stands before the prefix (a syslog header) is cut
//! off. The line is then checked for its shape and split at spaces into
//! timestamp, session, dataset and content.

use vstd::prelude::*;
use vstd::string::*;
use crate::number::{is_digit, parse_u32, unsigned_decimal};
use crate::record::{
    outcome, FieldContent, FieldValue, LogData, LogParsingError, LogRecord, Rejection,
};
use crate::text::{find, first_occurrence, occurs_at, same_text, substring, to_chars};
use crate::trusted::{parse_rfc3339, rfc3339_millis};

verus! {

/// How many characters stand before the marker.
pub const PREFIX_WIDTH: usize = 37;

/// The length of the shortest line: the prefix, a space, and `Quit`.
pub const MIN_LENGTH: usize = 42;

/// Where the space between timestamp and session stands.
pub const TIMESTAMP_WIDTH: usize = 27;

/// The markers, in the order in which they are looked for.
pub open spec fn markers() -> Seq<Seq<char>> {
    seq![" Query "@, " Connect "@, " Quit"@]
}

/// Where the first of `markers[k..]` that occurs in `line` occurs first.
pub open spec fn first_marker_from(line: Seq<char>, markers: Seq<Seq<char>>, k: int) -> Option<int>
    decreases markers.len() - k,
{
    if k < 0 || k >= markers.len() {
        None
    } else {
        match first_occurrence(line, markers[k]) {
            Some(pos) => Some(pos),
            None => first_marker_from(line, markers, k + 1),
        }
    }
}

/// Where the marker of `line` stands: the first marker of the list that
/// occurs at all decides.
pub open spec fn marker_position(line: Seq<char>) -> Option<int> {
    first_marker_from(line, markers(), 0)
}

/// The line without what stands before its prefix. A line whose marker
/// stands before position 37 is kept whole; a line without marker has no
/// candidate.
pub open spec fn candidate(line: Seq<char>) -> Option<Seq<char>> {
    match marker_position(line) {
        Some(pos) => Some(
            if pos >= PREFIX_WIDTH {
                line.subrange(pos - PREFIX_WIDTH, line.len() as int)
            } else {
                line
            },
        ),
        None => None,
    }
}

/// The shape of a line of this format: it starts with a digit, is at least
/// 42 characters long, and has a space at positions 27 and 37.
pub open spec fn well_shaped(line: Seq<char>) -> bool {
    &&& line.len() >= MIN_LENGTH
    &&& is_digit(line[0])
    &&& line[PREFIX_WIDTH as int] == ' '
    &&& line[TIMESTAMP_WIDTH as int] == ' '
}

/// The candidate of `line`, where it has one of the right shape.
pub open spec fn shaped_line(line: Seq<char>) -> Option<Seq<char>> {
    match candidate(line) {
        Some(c) if well_shaped(c) => Some(c),
        _ => None,
    }
}

/// A candidate is never longer than its line.
pub proof fn lemma_candidate_length(line: Seq<char>)
    ensures
        candidate(line) matches Some(c) ==> c.len() <= line.len(),
{
    lemma_marker_position(line, 0);
}

/// A marker position lies within the line.
proof fn lemma_marker_position(line: Seq<char>, k: int)
    requires
        0 <= k,
    ensures
        first_marker_from(line, markers(), k) matches Some(pos) ==> 0 <= pos <= line.len(),
    decreases markers().len() - k,
{
    if k < markers().len() {
        crate::text::lemma_first_occurrence_from(line, markers()[k], 0);
        lemma_marker_position(line, k + 1);
    }
}

/// A line shorter than 42 characters has no candidate of the right shape.
pub proof fn lemma_short_line_has_no_shape(line: Seq<char>)
    requires
        line.len() < MIN_LENGTH,
    ensures
        shaped_line(line) is None,
{
    lemma_candidate_length(line);
}

/// The markers as characters.
fn marker_list() -> (list: Vec<Vec<char>>)
    ensures
        list@.len() == markers().len(),
        forall|k: int| 0 <= k < list@.len() ==> (#[trigger] list@[k])@ == markers()[k],
{
    let mut list: Vec<Vec<char>> = Vec::new();
    list.push(to_chars(" Query "));
    list.push(to_chars(" Connect "));
    list.push(to_chars(" Quit"));
    list
}

/// Finds the marker of a line.
fn find_marker(line: &[char]) -> (r: Option<usize>)
    ensures
        match r {
            Some(pos) => marker_position(line@) == Some(pos as int),
            None => marker_position(line@) is None,
        },
{
    let list = marker_list();
    let mut k: usize = 0;
    while k < list.len()
        invariant
            k <= list@.len(),
            list@.len() == markers().len(),
            forall|j: int| 0 <= j < list@.len() ==> (#[trigger] list@[j])@ == markers()[j],
            marker_position(line@) == first_marker_from(line@, markers(), k as int),
        decreases list@.len() - k,
    {
        match find(line, list[k].as_slice()) {
            Some(pos) => {
                return Some(pos);
            },
            None => {},
        }
        k += 1;
    }
    None
}

/// Cuts a line down to its candidate and checks the shape.
pub fn validate_shape(message: &str) -> (r: Option<String>)
    ensures
        match r {
            Some(line) => shaped_line(message@) == Some(line@),
            None => shaped_line(message@) is None,
        },
        message@.len() < MIN_LENGTH ==> r is None,
{
    proof {
        lemma_candidate_length(message@);
        lemma_marker_position(message@, 0);
    }
    let chars = to_chars(message);
    let n = chars.len();
    let pos = match find_marker(chars.as_slice()) {
        Some(pos) => pos,
        None => return None,
    };
    let from: usize = if pos >= PREFIX_WIDTH {
        pos - PREFIX_WIDTH
    } else {
        0
    };
    assert(candidate(message@) == Some(message@.subrange(from as int, n as int))) by {
        assert(message@.subrange(0, n as int) =~= message@);
    }
    if n - from < MIN_LENGTH {
        return None;
    }
    let first = chars[from];
    if first < '0' || first > '9' {
        return None;
    }
    if chars[from + PREFIX_WIDTH] != ' ' || chars[from + TIMESTAMP_WIDTH] != ' ' {
        return None;
    }
    Some(substring(message, from, n))
}

/// The first position at or after `from` that holds no space.
pub open spec fn skip_spaces(s: Seq<char>, from: int) -> int
    decreases s.len() - from,
{
    if 0 <= from < s.len() && s[from] == ' ' {
        skip_spaces(s, from + 1)
    } else {
        from
    }
}

/// The first position at or after `from` that holds a space, or the end.
pub open spec fn token_end(s: Seq<char>, from: int) -> int
    decreases s.len() - from,
{
    if 0 <= from < s.len() && s[from] != ' ' {
        token_end(s, from + 1)
    } else {
        from
    }
}

/// The fields of `s` from position `from` on, when `found` fields stand
/// before it. Each of the first three fields is a run of characters without
/// space, and any number of spaces may stand before it. The fourth field is
/// the rest of the line after the one space that ends the third, and is
/// empty where the line ends with the third.
pub open spec fn fields_from(s: Seq<char>, from: int, found: nat) -> Seq<Seq<char>>
    decreases 3 - found,
{
    if found >= 3 {
        seq![
            if from < s.len() {
                s.subrange(from + 1, s.len() as int)
            } else {
                Seq::empty()
            },
        ]
    } else {
        let start = skip_spaces(s, from);
        if start >= s.len() {
            Seq::empty()
        } else {
            seq![s.subrange(start, token_end(s, start))] + fields_from(
                s,
                token_end(s, start),
                found + 1,
            )
        }
    }
}

/// The fields of a line: timestamp, session, dataset and content. A line
/// with fewer than three runs of characters has fewer than four fields.
pub open spec fn general_fields(s: Seq<char>) -> Seq<Seq<char>> {
    fields_from(s, 0, 0)
}

/// The texts that a vector of strings holds.
pub open spec fn texts(v: Seq<String>) -> Seq<Seq<char>> {
    Seq::new(v.len(), |i: int| v[i]@)
}

/// Skips the spaces at `from`.
fn skip_spaces_at(line: &[char], from: usize) -> (r: usize)
    requires
        from <= line@.len(),
    ensures
        r == skip_spaces(line@, from as int),
        from <= r <= line@.len(),
{
    let n = line.len();
    let mut i: usize = from;
    while i < n && line[i] == ' '
        invariant
            n == line@.len(),
            from <= i <= n,
            skip_spaces(line@, from as int) == skip_spaces(line@, i as int),
        decreases n - i,
    {
        i += 1;
    }
    i
}

/// Skips the characters other than space at `from`.
fn token_end_at(line: &[char], from: usize) -> (r: usize)
    requires
        from <= line@.len(),
    ensures
        r == token_end(line@, from as int),
        from <= r <= line@.len(),
{
    let n = line.len();
    let mut i: usize = from;
    while i < n && line[i] != ' '
        invariant
            n == line@.len(),
            from <= i <= n,
            token_end(line@, from as int) == token_end(line@, i as int),
        decreases n - i,
    {
        i += 1;
    }
    i
}

/// Splits a line into timestamp, session, dataset and content.
pub fn extract_general_fields(line: &str) -> (fields: Vec<String>)
    ensures
        texts(fields@) == general_fields(line@),
{
    let chars = to_chars(line);
    let n = chars.len();
    let mut fields: Vec<String> = Vec::new();
    let mut from: usize = 0;
    let mut found: usize = 0;
    while found < 3
        invariant
            chars@ == line@,
            n == line@.len(),
            from <= n,
            found <= 3,
            found == fields@.len(),
            general_fields(line@) == texts(fields@) + fields_from(
                line@,
                from as int,
                found as nat,
            ),
        decreases 3 - found,
    {
        let start = skip_spaces_at(chars.as_slice(), from);
        if start >= n {
            assert(texts(fields@) + Seq::<Seq<char>>::empty() =~= texts(fields@));
            return fields;
        }
        let end = token_end_at(chars.as_slice(), start);
        let ghost before = texts(fields@);
        let field = substring(line, start, end);
        fields.push(field);
        assert(texts(fields@) =~= before + seq![line@.subrange(start as int, end as int)]);
        assert(before + (seq![line@.subrange(start as int, end as int)] + fields_from(
            line@,
            end as int,
            (found + 1) as nat,
        )) =~= (before + seq![line@.subrange(start as int, end as int)]) + fields_from(
            line@,
            end as int,
            (found + 1) as nat,
        ));
        from = end;
        found += 1;
    }
    let ghost before = texts(fields@);
    if from < n {
        fields.push(substring(line, from + 1, n));
        assert(texts(fields@) =~= before + seq![line@.subrange(from + 1, n as int)]);
    } else {
        fields.push(String::new());
        assert(texts(fields@) =~= before + seq![Seq::<char>::empty()]);
    }
    fields
}

/// The user and the host of a connection: the content reads
/// `user@host on ...`. The user is what stands before the first `@`; the
/// host is what stands between it and the next `" on "`.
pub open spec fn connection_parts(content: Seq<char>) -> Option<(Seq<char>, Seq<char>)> {
    match first_occurrence(content, "@"@) {
        Some(at) => {
            let rest = content.subrange(at + "@"@.len(), content.len() as int);
            match first_occurrence(rest, " on "@) {
                Some(on) => Some((content.subrange(0, at), rest.subrange(0, on))),
                None => None,
            }
        },
        None => None,
    }
}

/// What the content of a `Connect` line adds to `log`: the user as
/// `user.name` and the host as `source.address`. Content of another form
/// hands the record back unchanged, as an error.
pub open spec fn connection_outcome(log: LogData, content: Seq<char>) -> Result<LogData, LogData> {
    match connection_parts(content) {
        Some((user, host)) => Ok(
            log.with_field("user.name"@, FieldContent::Text(user)).with_field(
                "source.address"@,
                FieldContent::Text(host),
            ),
        ),
        None => Err(log),
    }
}

/// The view of what `parse_connection` returns.
pub open spec fn connection_view(res: Result<LogRecord, LogRecord>) -> Result<LogData, LogData> {
    match res {
        Ok(log) => Ok(log@),
        Err(log) => Err(log@),
    }
}

/// Reads the content of a `Connect` line into `log`.
pub fn parse_connection(log: LogRecord, content: &str) -> (res: Result<LogRecord, LogRecord>)
    ensures
        connection_view(res) == connection_outcome(log@, content@),
{
    let chars = to_chars(content);
    let at_sign = to_chars("@");
    let on = to_chars(" on ");
    let n = chars.len();
    let at = match find(chars.as_slice(), at_sign.as_slice()) {
        Some(at) => at,
        None => return Err(log),
    };
    proof {
        crate::text::lemma_first_occurrence_from(content@, "@"@, 0);
        assert(occurs_at(content@, "@"@, at as int));
    }
    let start: usize = at + at_sign.len();
    let rest = vstd::slice::slice_subrange(chars.as_slice(), start, n);
    let end = match find(rest, on.as_slice()) {
        Some(end) => end,
        None => return Err(log),
    };
    proof {
        crate::text::lemma_first_occurrence_from(rest@, " on "@, 0);
        assert(rest@.subrange(0, end as int) =~= content@.subrange(start as int, start + end));
    }
    let mut log = log;
    log.add_field("user.name", FieldValue::Text(substring(content, 0, at)));
    log.add_field("source.address", FieldValue::Text(substring(content, start, start + end)));
    Ok(log)
}

/// `log` after the part that depends on the dataset: a `Query` line keeps
/// its content as `database.query`; a `Connect` line gets what its content
/// tells, or stays as it is where that cannot be read; any other line stays
/// as it is.
pub open spec fn with_content(log: LogData, dataset: Seq<char>, content: Seq<char>) -> LogData {
    if dataset == "Query"@ {
        log.with_field("database.query"@, FieldContent::Text(content))
    } else if dataset == "Connect"@ {
        match connection_outcome(log, content) {
            Ok(connected) => connected,
            Err(unchanged) => unchanged,
        }
    } else {
        log
    }
}

/// `log` with the session: as the number `session.id` where the text is
/// one, else as the text `session.name`.
pub open spec fn with_session(log: LogData, session: Seq<char>) -> LogData {
    match unsigned_decimal(session) {
        Some(id) => log.with_field("session.id"@, FieldContent::U32(id)),
        None => log.with_field("session.name"@, FieldContent::Text(session)),
    }
}

/// The record of a line with the fields `session`, `dataset` and `content`,
/// written at `created`.
pub open spec fn auth_record(
    log: LogData,
    session: Seq<char>,
    dataset: Seq<char>,
    content: Seq<char>,
    created: i64,
) -> LogData {
    with_session(with_content(log, dataset, content).with_created(created), session).with_field(
        "event.dataset"@,
        FieldContent::Text(dataset),
    ).with_tags("MySQL"@, "MySQL"@, "Database"@)
}

/// What the parser makes of `log`.
///
/// A line without marker, of another shape, with fewer than four fields, or
/// whose first field is no RFC 3339 timestamp is not of this format, and the
/// record comes back unchanged.
pub open spec fn auth_outcome(log: LogData) -> Result<LogData, Rejection> {
    match shaped_line(log.message) {
        Some(line) => {
            let fields = general_fields(line);
            if fields.len() != 4 {
                Err(Rejection::NoValidParser(log))
            } else {
                match rfc3339_millis(fields[0]) {
                    Some(created) => Ok(auth_record(log, fields[1], fields[2], fields[3], created)),
                    None => Err(Rejection::NoValidParser(log)),
                }
            }
        },
        None => Err(Rejection::NoValidParser(log)),
    }
}

/// Finishes a line whose fields have been split and whose timestamp has
/// been read as `created`.
pub fn complete_auth_log(
    log: LogRecord,
    session: String,
    dataset: String,
    content: String,
    created: i64,
) -> (r: LogRecord)
    ensures
        r@ == auth_record(log@, session@, dataset@, content@, created),
{
    let mut log = log;
    if same_text(dataset.as_str(), "Query") {
        log.add_field("database.query", FieldValue::Text(content));
    } else if same_text(dataset.as_str(), "Connect") {
        log = match parse_connection(log, content.as_str()) {
            Ok(connected) => connected,
            Err(unchanged) => unchanged,
        };
    }
    log.set_event_created(created);
    let number = parse_u32(to_chars(session.as_str()).as_slice());
    match number {
        Some(id) => log.add_field("session.id", FieldValue::U32(id)),
        None => log.add_field("session.name", FieldValue::Text(session)),
    }
    log.add_field("event.dataset", FieldValue::Text(dataset));
    log.set_tags("MySQL", "MySQL", "Database");
    log
}

/// Parses a line of the database audit log into `log`.
pub fn parse_auth_log(log: LogRecord) -> (res: Result<LogRecord, LogParsingError>)
    ensures
        outcome(res) == auth_outcome(log@),
        log@.message.len() < MIN_LENGTH ==> outcome(res) == Err::<LogData, Rejection>(
            Rejection::NoValidParser(log@),
        ),
{
    let line = match validate_shape(log.message.as_str()) {
        Some(line) => line,
        None => return Err(LogParsingError::NoValidParser(log)),
    };
    let mut fields = extract_general_fields(line.as_str());
    if fields.len() != 4 {
        assert(texts(fields@).len() == fields@.len());
        return Err(LogParsingError::NoValidParser(log));
    }
    assert(texts(fields@)[0] == fields@[0]@);
    assert(texts(fields@)[1] == fields@[1]@);
    assert(texts(fields@)[2] == fields@[2]@);
    assert(texts(fields@)[3] == fields@[3]@);
    let created = match parse_rfc3339(fields[0].as_str()) {
        Some(created) => created,
        None => return Err(LogParsingError::NoValidParser(log)),
    };
    let content = fields.pop().unwrap();
    let dataset = fields.pop().unwrap();
    let session = fields.pop().unwrap();
    Ok(complete_auth_log(log, session, dataset, content, created))
}

/// A line shorter than 42 characters is not of this format, whatever it
/// holds: the record comes back unchanged.
pub proof fn lemma_short_line_rejected(log: LogData)
    requires
        log.message.len() < MIN_LENGTH,
    ensures
        auth_outcome(log) == Err::<LogData, Rejection>(Rejection::NoValidParser(log)),
{
    lemma_short_line_has_no_shape(log.message);
}

/// A line in which none of the markers occurs is not of this format: the
/// record comes back unchanged.
pub proof fn lemma_line_without_marker_rejected(log: LogData)
    requires
        forall|k: int, at: int|
            0 <= k < markers().len() ==> !#[trigger] occurs_at(log.message, markers()[k], at),
    ensures
        auth_outcome(log) == Err::<LogData, Rejection>(Rejection::NoValidParser(log)),
{
    lemma_no_marker(log.message, 0);
}

/// Where no marker of `markers[k..]` occurs, there is no marker position.
proof fn lemma_no_marker(line: Seq<char>, k: int)
    requires
        0 <= k,
        forall|j: int, at: int|
            k <= j < markers().len() ==> !#[trigger] occurs_at(line, markers()[j], at),
    ensures
        first_marker_from(line, markers(), k) is None,
    decreases markers().len() - k,
{
    if k < markers().len() {
        crate::text::lemma_first_occurrence_from(line, markers()[k], 0);
        lemma_no_marker(line, k + 1);
    }
}

/// A rejection hands the record back as it came, and a parsed record keeps
/// its line, its time of arrival and its event.
pub proof fn lemma_auth_outcome_keeps_the_line(log: LogData)
    ensures
        match auth_outcome(log) {
            Ok(parsed) => parsed.message == log.message && parsed.event_received
                == log.event_received && parsed.event == log.event,
            Err(e) => e == Rejection::NoValidParser(log),
        },
{
}

} // verus!
