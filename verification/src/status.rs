//! The two-valued completion status of a todo and its string codec.
//!
//! On the wire a status is the literal `"DONE"` or `"NOT_DONE"`. Decoding is
//! deliberately lenient: any string other than `"DONE"` decodes to
//! `NotDone`, so malformed input is silently treated as not done.
use vstd::prelude::*;
use vstd::string::StrSliceExecFns;

verus! {

/// Completion state of a todo item.
#[derive(Clone, Copy, Debug, PartialEq, Eq, Structural)]
pub enum Status {
    Done,
    NotDone,
}

/// The string a status encodes to.
pub open spec fn spec_status_string(s: Status) -> Seq<char> {
    if s is Done {
        "DONE"@
    } else {
        "NOT_DONE"@
    }
}

/// The status a string decodes to: exactly `"DONE"` means done, any other
/// string falls back to `NotDone`.
pub open spec fn spec_status_from(s: Seq<char>) -> Status {
    if s == "DONE"@ {
        Status::Done
    } else {
        Status::NotDone
    }
}

impl Status {
    /// Encode the status as its wire string.
    pub fn as_str(&self) -> (r: &'static str)
        ensures
            r@ == spec_status_string(*self),
    {
        match self {
            Status::Done => "DONE",
            Status::NotDone => "NOT_DONE",
        }
    }
}

/// Decode a wire string into a status, treating every string other than
/// `"DONE"` as `NotDone`.
pub fn status_from_str(s: &str) -> (r: Status)
    ensures
        r == spec_status_from(s@),
{
    proof {
        reveal_strlit("DONE");
    }
    let n = s.unicode_len();
    if n == 4 && s.get_char(0) == 'D' && s.get_char(1) == 'O' && s.get_char(2) == 'N'
        && s.get_char(3) == 'E' {
        proof {
            assert(s@ =~= "DONE"@);
        }
        Status::Done
    } else {
        proof {
            if s@ == "DONE"@ {
                assert(s@.len() == 4);
                assert(s@[0] == 'D' && s@[1] == 'O' && s@[2] == 'N' && s@[3] == 'E');
            }
        }
        Status::NotDone
    }
}

/// Law: decoding an encoded status gives the status back, for both values.
pub proof fn lemma_status_round_trip(s: Status)
    ensures
        spec_status_from(spec_status_string(s)) == s,
{
    reveal_strlit("DONE");
    reveal_strlit("NOT_DONE");
    assert(("NOT_DONE"@).len() == 8);
    assert(("DONE"@).len() == 4);
}

} // verus!
