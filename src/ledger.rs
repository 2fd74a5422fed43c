//! How ledger queries are retried: a bounded number of attempts with a
//! fixed delay between them. The caller performs the query and the waiting.
use crate::body::{member, parse_body, parsed_body, BodyView};
use vstd::prelude::*;
use vstd::string::*;

verus! {

/// Attempts made at most for one ledger query.
pub const MAX_RETRY_COUNT: u64 = 5;

/// Seconds to wait before trying a failed ledger query again.
pub const CLI_RETRY_SECS: u64 = 5;

/// Seconds the reconciliation worker sleeps between two cycles.
pub const DID_CLEANUP_SLEEP_TIME: u64 = 10;

/// A bounded retry policy.
#[derive(Debug, Clone, Copy, PartialEq, Eq, Structural)]
pub struct RetryPolicy {
    pub max_attempts: u64,
    pub delay_secs: u64,
}

impl RetryPolicy {
    /// Up to `MAX_RETRY_COUNT` attempts, `CLI_RETRY_SECS` apart.
    pub fn standard() -> (r: RetryPolicy)
        ensures
            r.max_attempts == MAX_RETRY_COUNT,
            r.delay_secs == CLI_RETRY_SECS,
    {
        RetryPolicy { max_attempts: MAX_RETRY_COUNT, delay_secs: CLI_RETRY_SECS }
    }

    /// After `failures` failed attempts: the seconds to wait before the next
    /// attempt, or `None` when the query is to be treated as failed.
    pub fn after_failure(&self, failures: u64) -> (r: Option<u64>)
        ensures
            r == (if failures < self.max_attempts {
                Some(self.delay_secs)
            } else {
                None::<u64>
            }),
    {
        if failures < self.max_attempts {
            Some(self.delay_secs)
        } else {
            None
        }
    }
}


pub open spec fn error_field() -> Seq<char> {
    seq!['e', 'r', 'r', 'o', 'r']
}

pub open spec fn data_field() -> Seq<char> {
    seq!['d', 'a', 't', 'a']
}

pub open spec fn exists_field() -> Seq<char> {
    seq!['e', 'x', 'i', 's', 't', 's']
}

pub open spec fn false_text() -> Seq<char> {
    seq!['f', 'a', 'l', 's', 'e']
}

pub open spec fn true_text() -> Seq<char> {
    seq!['t', 'r', 'u', 'e']
}

/// `data.exists` of a response's members is `true`.
pub open spec fn reports_existing(m: crate::body::Members) -> bool {
    match member(m, data_field()) {
        Some(d) => match parsed_body(d) {
            Some(BodyView::Object(dm)) => member(dm, exists_field()) == Some(true_text()),
            _ => false,
        },
        None => false,
    }
}

/// What a ledger service response says: with `error` false, whether
/// `data.exists` is true; otherwise (or when it is not a JSON object) no
/// definitive answer.
pub open spec fn ledger_outcome(response: Seq<char>) -> Option<bool> {
    match parsed_body(response) {
        Some(BodyView::Object(m)) => if member(m, error_field()) == Some(false_text()) {
            Some(reports_existing(m))
        } else {
            None
        },
        _ => None,
    }
}

/// Reads a ledger service response (see `ledger_outcome`).
pub fn ledger_response_answer(response: &str) -> (r: Option<bool>)
    ensures
        r == ledger_outcome(response@),
{
    proof {
        reveal_strlit("error");
        reveal_strlit("false");
        reveal_strlit("data");
        reveal_strlit("exists");
        reveal_strlit("true");
        assert("error"@ =~= error_field());
        assert("false"@ =~= false_text());
        assert("data"@ =~= data_field());
        assert("exists"@ =~= exists_field());
        assert("true"@ =~= true_text());
    }
    let body = match parse_body(response) {
        Some(b) => b,
        None => {
            return None;
        },
    };
    match body.field("error") {
        Some(e) => {
            if !(e == "false".to_owned()) {
                return None;
            }
        },
        None => {
            return None;
        },
    }
    let data = match body.field("data") {
        Some(d) => d,
        None => {
            return Some(false);
        },
    };
    match parse_body(data.as_str()) {
        Some(inner) => match inner.field("exists") {
            Some(x) => Some(x == "true".to_owned()),
            None => Some(false),
        },
        None => Some(false),
    }
}

} // verus!
