use crate::handler_match::Violation;
use vstd::prelude::*;
use vstd::string::StringExecFns;

verus! {

/// The status of an answer to a request that breaks a rule.
pub const STATUS_BAD_REQUEST: u16 = 400;

/// The status of an answer to a request that failed for another reason.
pub const STATUS_INTERNAL_ERROR: u16 = 500;

/// The path that answers `pong`.
pub const PING_PATH: &'static str = "/ping";

/// The path that takes order requests.
pub const MATCH_PATH: &'static str = "/api/v1/match";

/// The answer to a request that could not be accepted: a status code and a
/// message for the body.
#[derive(Debug)]
pub struct AppError {
    pub status: u16,
    pub message: String,
}

/// The messages of `found`, each followed by a semicolon.
pub open spec fn listing(found: Seq<Violation>) -> Seq<char>
    decreases found.len(),
{
    if found.len() == 0 {
        Seq::empty()
    } else {
        listing(found.drop_last()) + found.last().text() + ";"@
    }
}

impl AppError {
    /// Whether `self` is the answer to a request that breaks `found`.
    pub open spec fn rejects(self, found: Seq<Violation>) -> bool {
        self.status == STATUS_BAD_REQUEST && self.message@ == listing(found)
    }

    /// The answer to a request that breaks the rules `found`.
    pub fn validation(found: &Vec<Violation>) -> (e: AppError)
        ensures
            e.rejects(found@),
    {
        let mut message = String::new();
        let mut i: usize = 0;
        assert(found@.take(0) =~= Seq::<Violation>::empty());
        while i < found.len()
            invariant
                i <= found@.len(),
                message@ == listing(found@.take(i as int)),
            decreases found@.len() - i,
        {
            assert(found@.take(i + 1).drop_last() =~= found@.take(i as int));
            message.append(found[i].to_string().as_str());
            message.append(";");
            i += 1;
        }
        assert(found@.take(found@.len() as int) =~= found@);
        AppError { status: STATUS_BAD_REQUEST, message }
    }

    /// The answer to a request that failed inside, with the failure's message.
    pub fn internal(message: String) -> (e: AppError)
        ensures
            e.status == STATUS_INTERNAL_ERROR,
            e.message == message,
    {
        AppError { status: STATUS_INTERNAL_ERROR, message }
    }

    /// The status and the body of the answer.
    pub fn into_response(self) -> (r: (u16, String))
        ensures
            r.0 == self.status,
            r.1 == self.message,
    {
        (self.status, self.message)
    }
}

/// The answer to a ping.
pub fn handler_ping() -> (s: &'static str)
    ensures
        s@ == "pong"@,
{
    "pong"
}

} // verus!
