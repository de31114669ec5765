//! The stored record, its ingress and egress forms, and the query range.

use crate::instant::format_display;
use crate::instant::instant_le;
use crate::instant::display_text;
use crate::instant::Timestamp;
use vstd::prelude::*;
use vstd::string::StringExecFns;

verus! {

/// The error of a store operation that could not complete.
#[derive(Debug, Clone, Copy, PartialEq, Eq, Structural)]
pub struct AppError;

/// A stored access-log record.
#[derive(Debug, PartialEq, Eq)]
pub struct Log {
    pub id: u128,
    pub user_agent: String,
    pub response_time: i32,
    pub timestamp: Timestamp,
}

impl Clone for Log {
    fn clone(&self) -> (r: Self)
        ensures
            r == *self,
    {
        Log {
            id: self.id,
            user_agent: self.user_agent.clone(),
            response_time: self.response_time,
            timestamp: self.timestamp,
        }
    }
}

/// A record as a client hands it in; the store fills in a missing timestamp.
#[derive(Debug, PartialEq, Eq)]
pub struct NewLog {
    pub user_agent: String,
    pub response_time: i32,
    pub timestamp: Option<Timestamp>,
}

impl Clone for NewLog {
    fn clone(&self) -> (r: Self)
        ensures
            r == *self,
    {
        NewLog {
            user_agent: self.user_agent.clone(),
            response_time: self.response_time,
            timestamp: self.timestamp,
        }
    }
}

impl NewLog {
    /// A record is accepted when its response time is not negative and its
    /// timestamp, if any, is one that chrono can represent.
    pub open spec fn acceptable(self) -> bool {
        &&& self.response_time >= 0
        &&& self.timestamp matches Some(t) ==> t.wf()
    }

    /// Whether the record may be stored.
    pub fn is_acceptable(&self) -> (r: bool)
        ensures
            r == self.acceptable(),
    {
        self.response_time >= 0 && match self.timestamp {
            Some(t) => Timestamp::new(t.secs, t.nanos).is_some(),
            None => true,
        }
    }
}

/// A record as the service hands it out, without its id.
#[derive(Debug, PartialEq, Eq)]
pub struct LogResponse {
    pub user_agent: String,
    pub response_time: u32,
    pub timestamp: Timestamp,
}

impl Clone for LogResponse {
    fn clone(&self) -> (r: Self)
        ensures
            r == *self,
    {
        LogResponse {
            user_agent: self.user_agent.clone(),
            response_time: self.response_time,
            timestamp: self.timestamp,
        }
    }
}

impl Log {
    /// The egress form of `self`: everything but the id.
    pub fn to_response(&self) -> (r: LogResponse)
        requires
            self.response_time >= 0,
        ensures
            r.user_agent == self.user_agent,
            r.response_time as int == self.response_time as int,
            r.timestamp == self.timestamp,
    {
        LogResponse {
            user_agent: self.user_agent.clone(),
            response_time: self.response_time as u32,
            timestamp: self.timestamp,
        }
    }
}

/// The number of rows that an upload stored.
#[derive(Debug, Clone, Copy, PartialEq, Eq, Default, Structural)]
pub struct CsvResponse(pub u64);

/// A range of instants; both ends are inclusive and a missing end leaves
/// that side unbounded.
#[derive(Debug, Clone, Copy, PartialEq, Eq, Structural)]
pub struct DateTimeRange {
    pub from: Option<Timestamp>,
    pub until: Option<Timestamp>,
}

impl DateTimeRange {
    /// Whether `t` lies in the range.
    pub open spec fn includes(self, t: Timestamp) -> bool {
        &&& self.from matches Some(f) ==> instant_le(f, t)
        &&& self.until matches Some(u) ==> instant_le(t, u)
    }

    /// Both ends, where present, are instants that chrono can represent.
    pub open spec fn wf(self) -> bool {
        &&& self.from matches Some(f) ==> f.wf()
        &&& self.until matches Some(u) ==> u.wf()
    }

    /// The text of the range: `from..until`, each end as chrono displays an
    /// instant and left out where it is missing.
    pub open spec fn text(self) -> Seq<char> {
        let head = match self.from {
            Some(f) => display_text(f.secs, f.nanos),
            None => Seq::empty(),
        };
        let tail = match self.until {
            Some(u) => display_text(u.secs, u.nanos),
            None => Seq::empty(),
        };
        head + seq!['.', '.'] + tail
    }

    /// Whether `t` lies in the range.
    pub fn contains(&self, t: &Timestamp) -> (r: bool)
        ensures
            r == self.includes(*t),
    {
        let after_from = match &self.from {
            Some(f) => f.le(t),
            None => true,
        };
        let before_until = match &self.until {
            Some(u) => t.le(u),
            None => true,
        };
        after_from && before_until
    }

    /// The text of the range, for messages.
    pub fn to_string(&self) -> (r: String)
        requires
            self.wf(),
        ensures
            r@ == self.text(),
    {
        let mut s = match self.from {
            Some(f) => format_display(f),
            None => String::new(),
        };
        s.append("..");
        if let Some(u) = self.until {
            let tail = format_display(u);
            s.append(tail.as_str());
        }
        proof {
            reveal_strlit("..");
        }
        assert(s@ =~= self.text());
        s
    }
}

} // verus!
