//! The parser for the `key=value` lines of the VPN gateway.
//!
//! A line carries its fields as `key=value` tokens after a syslog header.
//! The `msg` field holds a code such as `AUT31504`, a colon and a space, and
//! a description. The three letters of the code are the category of the
//! event and the digits are its number; together they decide whether the
//! line is a login event.

use vstd::prelude::*;
use vstd::slice::slice_subrange;
use vstd::string::*;
use crate::number::{parse_u32, unsigned_decimal};
use crate::record::{
    outcome, AuthEvent, AuthEventData, FieldContent, FieldValue, IpAddress, LogData,
    LogParsingError, LogRecord, LoginOutcome, Rejection, RemoteLogin, RemoteLoginData,
};
use crate::text::{find, first_occurrence, occurs_at, substring, to_chars};
use crate::tokenizer::{extract_fields, tokenize, FieldMap};
use crate::trusted::{
    datetime_millis, ip_of_text, parse_datetime, parse_ip, plain_datetime_pattern,
};

verus! {

/// The parts of a `msg` field.
#[derive(Clone, Debug, PartialEq, Eq)]
pub struct ParsedMessage {
    /// The three-letter category, such as `AUT`.
    pub category: String,
    /// The number of the event within its category.
    pub id: u32,
    /// The text after the separator.
    pub description: String,
}

/// What a [`ParsedMessage`] holds.
pub struct MessageData {
    pub category: Seq<char>,
    pub id: u32,
    pub description: Seq<char>,
}

impl View for ParsedMessage {
    type V = MessageData;

    open spec fn view(&self) -> MessageData {
        MessageData { category: self.category@, id: self.id, description: self.description@ }
    }
}

/// The parts of the message `msg`: the text before the first `": "` is the
/// code, three characters of category and then a number; the text after it
/// is the description. `None` where there is no separator, the code has
/// fewer than three characters, or what follows them is not a number.
pub open spec fn split_message(msg: Seq<char>) -> Option<MessageData> {
    match first_occurrence(msg, ": "@) {
        Some(pos) if pos >= 3 => match unsigned_decimal(msg.subrange(3, pos)) {
            Some(id) => Some(
                MessageData {
                    category: msg.subrange(0, 3),
                    id,
                    description: msg.subrange(pos + ": "@.len(), msg.len() as int),
                },
            ),
            None => None,
        },
        _ => None,
    }
}

/// Splits a `msg` field into category, number and description.
pub fn parse_message(msg: &str) -> (r: Option<ParsedMessage>)
    ensures
        match r {
            Some(m) => split_message(msg@) == Some(m@),
            None => split_message(msg@) is None,
        },
{
    let chars = to_chars(msg);
    let separator = to_chars(": ");
    let pos = match find(chars.as_slice(), separator.as_slice()) {
        Some(pos) => pos,
        None => return None,
    };
    if pos < 3 {
        return None;
    }
    proof {
        crate::text::lemma_first_occurrence_from(msg@, ": "@, 0);
    }
    let id = match parse_u32(slice_subrange(chars.as_slice(), 3, pos)) {
        Some(id) => id,
        None => return None,
    };
    Some(
        ParsedMessage {
            category: substring(msg, 0, 3),
            id,
            description: substring(msg, pos + separator.len(), chars.len()),
        },
    )
}

/// One row of the classification table.
pub struct Rule {
    pub category: [char; 3],
    pub id: u32,
    pub outcome: LoginOutcome,
}

/// The events that are logins, by category and number, each with its
/// outcome. Every other event is left unclassified.
pub open spec fn rule_table() -> Seq<(Seq<char>, u32, LoginOutcome)> {
    seq![
        (seq!['A', 'U', 'T'], 31504u32, LoginOutcome::Success),
        (seq!['A', 'U', 'T'], 24412u32, LoginOutcome::Success),
        (seq!['A', 'U', 'T'], 24414u32, LoginOutcome::Success),
        (seq!['A', 'U', 'T'], 24326u32, LoginOutcome::Establish),
        (seq!['A', 'U', 'T'], 30684u32, LoginOutcome::Establish),
        (seq!['A', 'U', 'T'], 24327u32, LoginOutcome::Fail),
        (seq!['A', 'U', 'T'], 30685u32, LoginOutcome::Fail),
        (seq!['A', 'D', 'M'], 22668u32, LoginOutcome::Success),
    ]
}

/// The outcome of the first row at or after `from` for `category` and `id`.
pub open spec fn lookup_from(
    table: Seq<(Seq<char>, u32, LoginOutcome)>,
    category: Seq<char>,
    id: u32,
    from: int,
) -> Option<LoginOutcome>
    decreases table.len() - from,
{
    if from < 0 || from >= table.len() {
        None
    } else if table[from].0 == category && table[from].1 == id {
        Some(table[from].2)
    } else {
        lookup_from(table, category, id, from + 1)
    }
}

/// The login outcome that the event `id` of `category` stands for, if it is
/// a login event.
pub open spec fn login_outcome(category: Seq<char>, id: u32) -> Option<LoginOutcome> {
    lookup_from(rule_table(), category, id, 0)
}

/// The value of `rule_table` as rows.
pub open spec fn rows(rules: Seq<Rule>) -> Seq<(Seq<char>, u32, LoginOutcome)> {
    Seq::new(rules.len(), |i: int| (rules[i].category@, rules[i].id, rules[i].outcome))
}

/// The classification table.
pub fn rules() -> (table: Vec<Rule>)
    ensures
        rows(table@) == rule_table(),
{
    let mut table: Vec<Rule> = Vec::new();
    table.push(Rule { category: ['A', 'U', 'T'], id: 31504, outcome: LoginOutcome::Success });
    table.push(Rule { category: ['A', 'U', 'T'], id: 24412, outcome: LoginOutcome::Success });
    table.push(Rule { category: ['A', 'U', 'T'], id: 24414, outcome: LoginOutcome::Success });
    table.push(Rule { category: ['A', 'U', 'T'], id: 24326, outcome: LoginOutcome::Establish });
    table.push(Rule { category: ['A', 'U', 'T'], id: 30684, outcome: LoginOutcome::Establish });
    table.push(Rule { category: ['A', 'U', 'T'], id: 24327, outcome: LoginOutcome::Fail });
    table.push(Rule { category: ['A', 'U', 'T'], id: 30685, outcome: LoginOutcome::Fail });
    table.push(Rule { category: ['A', 'D', 'M'], id: 22668, outcome: LoginOutcome::Success });
    proof {
        let got = rows(table@);
        let want = rule_table();
        assert(got.len() == want.len());
        assert forall|i: int| 0 <= i < got.len() implies got[i] == want[i] by {
            assert(table@[i].category@ =~= want[i].0);
        }
        assert(got =~= want);
    }
    table
}

/// Looks the event up in the classification table.
pub fn classify(category: &str, id: u32) -> (r: Option<LoginOutcome>)
    ensures
        r == login_outcome(category@, id),
{
    let table = rules();
    let wanted = to_chars(category);
    let mut k: usize = 0;
    while k < table.len()
        invariant
            rows(table@) == rule_table(),
            wanted@ == category@,
            k <= table@.len(),
            login_outcome(category@, id) == lookup_from(rule_table(), category@, id, k as int),
        decreases table@.len() - k,
    {
        let rule = &table[k];
        assert(rows(table@)[k as int] == (rule.category@, rule.id, rule.outcome));
        if rule.id == id && wanted.len() == 3 && wanted[0] == rule.category[0] && wanted[1]
            == rule.category[1] && wanted[2] == rule.category[2] {
            assert(rule.category@ =~= category@);
            return Some(rule.outcome);
        }
        assert(!(rule.category@ == category@ && rule.id == id)) by {
            if rule.category@ == category@ {
                assert(rule.category@.len() == 3);
            }
        }
        k += 1;
    }
    None
}

/// The value of `key` in `fields`, or `default` where it is absent.
pub open spec fn text_or(
    fields: Map<Seq<char>, Seq<char>>,
    key: Seq<char>,
    default: Seq<char>,
) -> Seq<char> {
    if fields.contains_key(key) {
        fields[key]
    } else {
        default
    }
}

/// Who logged in, as the fields `user`, `realm` and `src` tell it. An absent
/// user is empty; an absent realm or source is `_NONE_`.
pub open spec fn login_of(fields: Map<Seq<char>, Seq<char>>) -> RemoteLoginData {
    RemoteLoginData {
        user_name: text_or(fields, "user"@, ""@),
        domain: text_or(fields, "realm"@, "_NONE_"@),
        source_address: text_or(fields, "src"@, "_NONE_"@),
    }
}

/// The login event with `outcome` on the appliance that the field `fw`
/// names (`_NONE_` where it is absent).
pub open spec fn event_for(
    fields: Map<Seq<char>, Seq<char>>,
    outcome: LoginOutcome,
) -> AuthEventData {
    AuthEventData { hostname: text_or(fields, "fw"@, "_NONE_"@), outcome, login: login_of(fields) }
}

/// `log` with the user agent of the field `agent`, where that is present and
/// not empty.
pub open spec fn with_agent(fields: Map<Seq<char>, Seq<char>>, log: LogData) -> LogData {
    if fields.contains_key("agent"@) && fields["agent"@].len() > 0 {
        log.with_field("user_agent.original"@, FieldContent::Text(fields["agent"@]))
    } else {
        log
    }
}

/// `log` enriched with the message `m`: the user agent, the event number as
/// `event.code`, the category as `event.dataset`, and the login event where
/// the table has one for `m`.
pub open spec fn classified(
    fields: Map<Seq<char>, Seq<char>>,
    log: LogData,
    m: MessageData,
) -> LogData {
    let coded = with_agent(fields, log).with_field("event.code"@, FieldContent::U32(m.id)).with_field(
        "event.dataset"@,
        FieldContent::Text(m.category),
    );
    match login_outcome(m.category, m.id) {
        Some(o) => coded.with_event(event_for(fields, o)),
        None => coded,
    }
}

/// What reading the `msg` field makes of `log`: unchanged where there is no
/// such field, a parser error where the field cannot be split, and the
/// enriched record otherwise.
pub open spec fn msg_outcome(fields: Map<Seq<char>, Seq<char>>, log: LogData) -> Result<
    LogData,
    Rejection,
> {
    if !fields.contains_key("msg"@) {
        Ok(log)
    } else {
        match split_message(fields["msg"@]) {
            Some(m) => Ok(classified(fields, log, m)),
            None => Err(Rejection::ParserError(log)),
        }
    }
}

/// The value of `key` in `fields` as an owned string, or `default`.
fn field_or(fields: &FieldMap, key: &str, default: &str) -> (r: String)
    ensures
        r@ == text_or(fields@, key@, default@),
{
    match fields.get(key) {
        Some(value) => value.clone(),
        None => default.to_owned(),
    }
}

/// Enriches `log` with the parts of a message and the fields around it.
pub fn classify_record(fields: &FieldMap, log: LogRecord, message: ParsedMessage) -> (r: LogRecord)
    ensures
        r@ == classified(fields@, log@, message@),
{
    let mut log = log;
    match fields.get("agent") {
        Some(agent) => {
            if !agent.as_str().is_empty() {
                log.add_field("user_agent.original", FieldValue::Text(agent.clone()));
            }
        },
        None => {},
    }
    let found = classify(message.category.as_str(), message.id);
    log.add_field("event.code", FieldValue::U32(message.id));
    log.add_field("event.dataset", FieldValue::Text(message.category));
    match found {
        Some(result) => {
            let login = RemoteLogin {
                user_name: field_or(fields, "user", ""),
                domain: field_or(fields, "realm", "_NONE_"),
                source_address: field_or(fields, "src", "_NONE_"),
            };
            log.set_event(
                AuthEvent { hostname: field_or(fields, "fw", "_NONE_"), outcome: result, login },
            );
        },
        None => {},
    }
    log
}

/// Reads the `msg` field of a tokenized line into `log`.
///
/// Without a `msg` field the record comes back unchanged. A `msg` field that
/// cannot be split is a parser error, which carries the unchanged record.
pub fn parse_msg_field(fields: &FieldMap, log: LogRecord) -> (res: Result<
    LogRecord,
    LogParsingError,
>)
    ensures
        outcome(res) == msg_outcome(fields@, log@),
{
    let msg = match fields.get("msg") {
        Some(msg) => msg,
        None => return Ok(log),
    };
    match parse_message(msg.as_str()) {
        Some(message) => Ok(classify_record(fields, log, message)),
        None => Err(LogParsingError::ParserError(log)),
    }
}

/// The record of a line whose time and appliance address have been read:
/// the `msg` field is read first, and a record that passes gets the
/// appliance address as `observer.ip`, the creation time, and the tags of
/// the product.
pub open spec fn general_record(
    fields: Map<Seq<char>, Seq<char>>,
    log: LogData,
    created: i64,
    observer: IpAddress,
) -> Result<LogData, Rejection> {
    match msg_outcome(fields, log) {
        Ok(enriched) => Ok(
            enriched.with_field("observer.ip"@, FieldContent::Ip(observer)).with_created(
                created,
            ).with_tags("PulseSecure"@, "PulseSecure"@, "VPN"@),
        ),
        Err(e) => Err(e),
    }
}

/// The `key=value` part of a line: what follows the space of the first
/// `" id="`.
pub open spec fn key_value_part(message: Seq<char>) -> Option<Seq<char>> {
    match first_occurrence(message, " id="@) {
        Some(pos) => Some(message.subrange(pos + 1, message.len() as int)),
        None => None,
    }
}

/// What the parser makes of `log`.
///
/// A line without `" id="`, without a `time` field that reads as
/// `YYYY-MM-DD HH:MM:SS`, or without a `fw` field is not of this format. A
/// `fw` field that is no address is a parser error. Every rejection carries
/// the record unchanged.
pub open spec fn general_outcome(log: LogData) -> Result<LogData, Rejection> {
    match key_value_part(log.message) {
        Some(line) => {
            let fields = tokenize(line);
            if !fields.contains_key("time"@) {
                Err(Rejection::NoValidParser(log))
            } else {
                match datetime_millis(fields["time"@], plain_datetime_pattern()) {
                    Some(created) => if !fields.contains_key("fw"@) {
                        Err(Rejection::NoValidParser(log))
                    } else {
                        match ip_of_text(fields["fw"@]) {
                            Some(observer) => general_record(fields, log, created, observer),
                            None => Err(Rejection::ParserError(log)),
                        }
                    },
                    None => Err(Rejection::NoValidParser(log)),
                }
            }
        },
        None => Err(Rejection::NoValidParser(log)),
    }
}

/// Finishes a line whose `time` and `fw` fields have been read as `created`
/// and `observer`.
pub fn complete_general_log(
    fields: &FieldMap,
    log: LogRecord,
    created: i64,
    observer: IpAddress,
) -> (res: Result<LogRecord, LogParsingError>)
    ensures
        outcome(res) == general_record(fields@, log@, created, observer),
{
    match parse_msg_field(fields, log) {
        Ok(enriched) => {
            let mut enriched = enriched;
            enriched.add_field("observer.ip", FieldValue::Ip(observer));
            enriched.set_event_created(created);
            enriched.set_tags("PulseSecure", "PulseSecure", "VPN");
            Ok(enriched)
        },
        Err(e) => Err(e),
    }
}

/// Parses a line of the VPN gateway into `log`.
pub fn parse_general_log(log: LogRecord) -> (res: Result<LogRecord, LogParsingError>)
    ensures
        outcome(res) == general_outcome(log@),
{
    let chars = to_chars(log.message.as_str());
    let marker = to_chars(" id=");
    let pos = match find(chars.as_slice(), marker.as_slice()) {
        Some(pos) => pos,
        None => return Err(LogParsingError::NoValidParser(log)),
    };
    proof {
        crate::text::lemma_first_occurrence_from(log.message@, " id="@, 0);
        reveal_strlit(" id=");
    }
    let line = substring(log.message.as_str(), pos + 1, chars.len());
    let fields = extract_fields(line.as_str());
    let created = match fields.get("time") {
        Some(time) => match parse_datetime(time.as_str(), "%Y-%m-%d %H:%M:%S") {
            Some(created) => created,
            None => return Err(LogParsingError::NoValidParser(log)),
        },
        None => return Err(LogParsingError::NoValidParser(log)),
    };
    let observer = match fields.get("fw") {
        Some(fw) => match parse_ip(fw.as_str()) {
            Some(observer) => observer,
            None => return Err(LogParsingError::ParserError(log)),
        },
        None => return Err(LogParsingError::NoValidParser(log)),
    };
    complete_general_log(&fields, log, created, observer)
}

/// The address that a message names after its first `" from "`: the text up
/// to the next space, or to the end of the message.
pub open spec fn source_in_message(msg: Seq<char>) -> Option<Seq<char>> {
    match first_occurrence(msg, " from "@) {
        Some(pos) => {
            let rest = msg.subrange(pos + " from "@.len(), msg.len() as int);
            match first_occurrence(rest, " "@) {
                Some(end) => Some(rest.subrange(0, end)),
                None => Some(rest),
            }
        },
        None => None,
    }
}

/// Reads the address after the first `" from "` of a message.
pub fn extract_from_msg(msg: &str) -> (r: Option<&str>)
    ensures
        match r {
            Some(address) => source_in_message(msg@) == Some(address@),
            None => source_in_message(msg@) is None,
        },
{
    let chars = to_chars(msg);
    let marker = to_chars(" from ");
    let space = to_chars(" ");
    let pos = match find(chars.as_slice(), marker.as_slice()) {
        Some(pos) => pos,
        None => return None,
    };
    proof {
        crate::text::lemma_first_occurrence_from(msg@, " from "@, 0);
        assert(occurs_at(msg@, " from "@, pos as int));
    }
    let n = chars.len();
    let start: usize = pos + marker.len();
    let rest = slice_subrange(chars.as_slice(), start, n);
    match find(rest, space.as_slice()) {
        Some(end) => {
            proof {
                crate::text::lemma_first_occurrence_from(rest@, " "@, 0);
                assert(rest@.subrange(0, end as int) =~= msg@.subrange(
                    start as int,
                    start + end,
                ));
            }
            Some(msg.substring_char(start, start + end))
        },
        None => Some(msg.substring_char(start, n)),
    }
}

/// The table read as a rule. In category `AUT`, the events 31504, 24412 and
/// 24414 are successful logins, 24326 and 30684 are logins being
/// established, and 24327 and 30685 are failed logins. In category `ADM`,
/// the event 22668 is a successful login. No other event of these
/// categories, and no event of any other category, is a login.
pub proof fn lemma_login_outcome(category: Seq<char>, id: u32)
    ensures
        login_outcome(category, id) == (if category == seq!['A', 'U', 'T'] {
            if id == 31504 || id == 24412 || id == 24414 {
                Some(LoginOutcome::Success)
            } else if id == 24326 || id == 30684 {
                Some(LoginOutcome::Establish)
            } else if id == 24327 || id == 30685 {
                Some(LoginOutcome::Fail)
            } else {
                None
            }
        } else if category == seq!['A', 'D', 'M'] && id == 22668 {
            Some(LoginOutcome::Success)
        } else {
            None
        }),
{
    reveal_with_fuel(lookup_from, 9);
    let aut = seq!['A', 'U', 'T'];
    let adm = seq!['A', 'D', 'M'];
    assert(aut[1] != adm[1]);
}

/// A message whose event the table does not list is still read with
/// success: the record keeps the classified event it had, and gets the
/// number of the event as `event.code` and its category as `event.dataset`.
pub proof fn lemma_unlisted_event(fields: Map<Seq<char>, Seq<char>>, log: LogData, m: MessageData)
    requires
        fields.contains_key("msg"@),
        split_message(fields["msg"@]) == Some(m),
        login_outcome(m.category, m.id) is None,
    ensures
        msg_outcome(fields, log) matches Ok(read) && {
            &&& read.event == log.event
            &&& read.fields.contains_key("event.code"@)
            &&& read.fields["event.code"@] == FieldContent::U32(m.id)
            &&& read.fields.contains_key("event.dataset"@)
            &&& read.fields["event.dataset"@] == FieldContent::Text(m.category)
        },
{
    reveal_strlit("event.code");
    reveal_strlit("event.dataset");
    assert("event.code"@.len() != "event.dataset"@.len());
}

/// Reading the `msg` field into a record that has already been through it
/// changes nothing: the classifier keeps no state, and what it writes
/// depends on the fields alone. A rejection hands back the record it got.
pub proof fn lemma_msg_outcome_idempotent(fields: Map<Seq<char>, Seq<char>>, log: LogData)
    ensures
        match msg_outcome(fields, log) {
            Ok(once) => msg_outcome(fields, once) == Ok::<LogData, Rejection>(once),
            Err(e) => e == Rejection::ParserError(log),
        },
{
    match msg_outcome(fields, log) {
        Ok(once) => {
            if fields.contains_key("msg"@) {
                let m = split_message(fields["msg"@])->0;
                let again = classified(fields, once, m);
                assert(again.fields =~= once.fields);
                assert(again == once);
            }
        },
        Err(e) => {},
    }
}

/// A rejection hands the record back as it came, and a parsed record keeps
/// its line and its time of arrival.
pub proof fn lemma_general_outcome_keeps_the_line(log: LogData)
    ensures
        match general_outcome(log) {
            Ok(parsed) => parsed.message == log.message && parsed.event_received
                == log.event_received,
            Err(e) => e == Rejection::NoValidParser(log) || e == Rejection::ParserError(log),
        },
{
}

} // verus!
