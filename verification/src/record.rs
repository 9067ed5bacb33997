//! The normalized log record that the parsers fill in.

use vstd::prelude::*;
use vstd::string::*;
use crate::fields::TextMap;

verus! {

/// An IPv4 or IPv6 address as a number.
#[derive(Clone, Copy, Debug, PartialEq, Eq, Structural)]
pub enum IpAddress {
    V4(u32),
    V6(u128),
}

/// A typed value of the field bag.
#[derive(Clone, Debug, PartialEq, Eq)]
pub enum FieldValue {
    Text(String),
    U32(u32),
    Ip(IpAddress),
}

/// What a [`FieldValue`] holds.
pub enum FieldContent {
    Text(Seq<char>),
    U32(u32),
    Ip(IpAddress),
}

impl View for FieldValue {
    type V = FieldContent;

    open spec fn view(&self) -> FieldContent {
        match self {
            FieldValue::Text(t) => FieldContent::Text(t@),
            FieldValue::U32(n) => FieldContent::U32(*n),
            FieldValue::Ip(ip) => FieldContent::Ip(*ip),
        }
    }
}

/// How a login attempt ended.
#[derive(Clone, Copy, Debug, PartialEq, Eq, Structural)]
pub enum LoginOutcome {
    /// The login succeeded.
    Success,
    /// The login was refused.
    Fail,
    /// The first authentication step succeeded; the session is being set up.
    Establish,
}

/// Who logged in from where: user name, domain and source address.
#[derive(Clone, Debug, PartialEq, Eq)]
pub struct RemoteLogin {
    pub user_name: String,
    pub domain: String,
    pub source_address: String,
}

/// What a [`RemoteLogin`] holds.
pub struct RemoteLoginData {
    pub user_name: Seq<char>,
    pub domain: Seq<char>,
    pub source_address: Seq<char>,
}

impl View for RemoteLogin {
    type V = RemoteLoginData;

    open spec fn view(&self) -> RemoteLoginData {
        RemoteLoginData {
            user_name: self.user_name@,
            domain: self.domain@,
            source_address: self.source_address@,
        }
    }
}

/// A classified authentication event.
#[derive(Clone, Debug, PartialEq, Eq)]
pub struct AuthEvent {
    /// The host on which the login happened.
    pub hostname: String,
    pub outcome: LoginOutcome,
    pub login: RemoteLogin,
}

/// What an [`AuthEvent`] holds.
pub struct AuthEventData {
    pub hostname: Seq<char>,
    pub outcome: LoginOutcome,
    pub login: RemoteLoginData,
}

impl View for AuthEvent {
    type V = AuthEventData;

    open spec fn view(&self) -> AuthEventData {
        AuthEventData { hostname: self.hostname@, outcome: self.outcome, login: self.login@ }
    }
}

/// The view of an optional event.
pub open spec fn event_data(event: Option<AuthEvent>) -> Option<AuthEventData> {
    match event {
        Some(e) => Some(e@),
        None => None,
    }
}

/// One log line and what has been learned from it.
#[derive(Clone, Debug)]
pub struct LogRecord {
    /// The raw line.
    pub message: String,
    /// When the line arrived, in milliseconds since the epoch.
    pub event_received: i64,
    /// When the line was written, in milliseconds since the epoch.
    pub event_created: i64,
    pub service: String,
    pub product: String,
    pub category: String,
    /// The classified event, if the line is one.
    pub event: Option<AuthEvent>,
    /// The field bag, keyed by dotted names.
    pub fields: TextMap<FieldValue>,
}

/// What a [`LogRecord`] holds.
pub struct LogData {
    pub message: Seq<char>,
    pub event_received: i64,
    pub event_created: i64,
    pub service: Seq<char>,
    pub product: Seq<char>,
    pub category: Seq<char>,
    pub event: Option<AuthEventData>,
    pub fields: Map<Seq<char>, FieldContent>,
}

impl LogData {
    /// This record with `name` bound to `value` in the field bag.
    pub open spec fn with_field(self, name: Seq<char>, value: FieldContent) -> LogData {
        LogData { fields: self.fields.insert(name, value), ..self }
    }

    /// This record with `event` as its classified event.
    pub open spec fn with_event(self, event: AuthEventData) -> LogData {
        LogData { event: Some(event), ..self }
    }

    /// This record with `created` as its creation time.
    pub open spec fn with_created(self, created: i64) -> LogData {
        LogData { event_created: created, ..self }
    }

    /// This record tagged with a service, a product and a category.
    pub open spec fn with_tags(
        self,
        service: Seq<char>,
        product: Seq<char>,
        category: Seq<char>,
    ) -> LogData {
        LogData { service, product, category, ..self }
    }
}

impl View for LogRecord {
    type V = LogData;

    open spec fn view(&self) -> LogData {
        LogData {
            message: self.message@,
            event_received: self.event_received,
            event_created: self.event_created,
            service: self.service@,
            product: self.product@,
            category: self.category@,
            event: event_data(self.event),
            fields: self.fields@,
        }
    }
}

impl LogRecord {
    /// A record for a line that arrived at `received`: no tags, no event, an
    /// empty field bag, and the arrival time as creation time.
    pub fn new(message: String, received: i64) -> (log: LogRecord)
        ensures
            log@ == (LogData {
                message: message@,
                event_received: received,
                event_created: received,
                service: Seq::empty(),
                product: Seq::empty(),
                category: Seq::empty(),
                event: None,
                fields: Map::empty(),
            }),
    {
        LogRecord {
            message,
            event_received: received,
            event_created: received,
            service: String::new(),
            product: String::new(),
            category: String::new(),
            event: None,
            fields: TextMap::new(),
        }
    }

    /// The value of the field `name`, if the bag holds one.
    pub fn field(&self, name: &str) -> (r: Option<&FieldValue>)
        ensures
            match r {
                Some(v) => self@.fields.contains_key(name@) && self@.fields[name@] == v@,
                None => !self@.fields.contains_key(name@),
            },
    {
        self.fields.get(name)
    }

    /// Binds the field `name` to `value`.
    pub fn add_field(&mut self, name: &str, value: FieldValue)
        ensures
            final(self)@ == old(self)@.with_field(name@, value@),
    {
        self.fields.insert(name.to_owned(), value);
    }

    /// Attaches the classified event.
    pub fn set_event(&mut self, event: AuthEvent)
        ensures
            final(self)@ == old(self)@.with_event(event@),
    {
        self.event = Some(event);
    }

    /// Sets the creation time, in milliseconds since the epoch.
    pub fn set_event_created(&mut self, created: i64)
        ensures
            final(self)@ == old(self)@.with_created(created),
    {
        self.event_created = created;
    }

    /// Tags the record with a service, a product and a category.
    pub fn set_tags(&mut self, service: &str, product: &str, category: &str)
        ensures
            final(self)@ == old(self)@.with_tags(service@, product@, category@),
    {
        self.service = service.to_owned();
        self.product = product.to_owned();
        self.category = category.to_owned();
    }
}

/// Why a line was not parsed. Both kinds hand the record back unchanged.
#[derive(Clone, Debug)]
pub enum LogParsingError {
    /// The line is not in this parser's format; another parser may be tried.
    NoValidParser(LogRecord),
    /// The line is in this parser's format, but one of its parts is corrupt.
    ParserError(LogRecord),
}

/// What a [`LogParsingError`] holds.
pub enum Rejection {
    NoValidParser(LogData),
    ParserError(LogData),
}

impl View for LogParsingError {
    type V = Rejection;

    open spec fn view(&self) -> Rejection {
        match self {
            LogParsingError::NoValidParser(log) => Rejection::NoValidParser(log@),
            LogParsingError::ParserError(log) => Rejection::ParserError(log@),
        }
    }
}

/// The view of a parser's result.
pub open spec fn outcome(res: Result<LogRecord, LogParsingError>) -> Result<LogData, Rejection> {
    match res {
        Ok(log) => Ok(log@),
        Err(e) => Err(e@),
    }
}

} // verus!
