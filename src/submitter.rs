//! The scoring server's verdicts, and the adapters' ways of reading them.
use crate::text::str_eq;
use rand::Rng;
use vstd::prelude::*;

verus! {

/// The verdict on one submitted flag.
#[derive(Debug, Clone, Copy, PartialEq, Eq, Structural)]
pub enum FlagStatus {
    /// Accepted.
    Accepted,
    /// Already submitted.
    Duplicate,
    /// One of our own flags.
    Own,
    /// Expired.
    Old,
    /// Not a flag.
    Invalid,
    /// Refused by the server, for instance outside the game.
    Error,
}

/// The short code of a verdict.
pub open spec fn code_of(s: FlagStatus) -> Seq<char> {
    match s {
        FlagStatus::Accepted => "OK"@,
        FlagStatus::Duplicate => "DUP"@,
        FlagStatus::Own => "OWN"@,
        FlagStatus::Old => "OLD"@,
        FlagStatus::Invalid => "INV"@,
        FlagStatus::Error => "ERR"@,
    }
}

/// The verdict whose code is `code`, if any.
pub open spec fn status_of_code(code: Seq<char>) -> Option<FlagStatus> {
    if code == "OK"@ {
        Some(FlagStatus::Accepted)
    } else if code == "DUP"@ {
        Some(FlagStatus::Duplicate)
    } else if code == "OWN"@ {
        Some(FlagStatus::Own)
    } else if code == "OLD"@ {
        Some(FlagStatus::Old)
    } else if code == "INV"@ {
        Some(FlagStatus::Invalid)
    } else if code == "ERR"@ {
        Some(FlagStatus::Error)
    } else {
        None
    }
}

/// The verdict a scoring server's code stands for; an unknown code is an error.
pub open spec fn status_or_error(code: Seq<char>) -> FlagStatus {
    match status_of_code(code) {
        Some(s) => s,
        None => FlagStatus::Error,
    }
}

impl FlagStatus {
    /// Every verdict.
    pub fn all() -> (r: Vec<FlagStatus>)
        ensures
            r@ == seq![
                FlagStatus::Accepted,
                FlagStatus::Duplicate,
                FlagStatus::Own,
                FlagStatus::Old,
                FlagStatus::Invalid,
                FlagStatus::Error,
            ],
    {
        let mut v: Vec<FlagStatus> = Vec::new();
        v.push(FlagStatus::Accepted);
        v.push(FlagStatus::Duplicate);
        v.push(FlagStatus::Own);
        v.push(FlagStatus::Old);
        v.push(FlagStatus::Invalid);
        v.push(FlagStatus::Error);
        v
    }

    /// The short code, as stored in a flag's status.
    pub fn to_string(&self) -> (r: String)
        ensures
            r@ == code_of(*self),
    {
        match self {
            FlagStatus::Accepted => String::from_str("OK"),
            FlagStatus::Duplicate => String::from_str("DUP"),
            FlagStatus::Own => String::from_str("OWN"),
            FlagStatus::Old => String::from_str("OLD"),
            FlagStatus::Invalid => String::from_str("INV"),
            FlagStatus::Error => String::from_str("ERR"),
        }
    }

    /// The verdict with the given short code.
    pub fn from_code(code: &str) -> (r: Option<FlagStatus>)
        ensures
            r == status_of_code(code@),
    {
        if str_eq(code, "OK") {
            Some(FlagStatus::Accepted)
        } else if str_eq(code, "DUP") {
            Some(FlagStatus::Duplicate)
        } else if str_eq(code, "OWN") {
            Some(FlagStatus::Own)
        } else if str_eq(code, "OLD") {
            Some(FlagStatus::Old)
        } else if str_eq(code, "INV") {
            Some(FlagStatus::Invalid)
        } else if str_eq(code, "ERR") {
            Some(FlagStatus::Error)
        } else {
            None
        }
    }

    /// The verdict with the given short code; an unknown code reads as an error.
    pub fn from_code_or_error(code: &str) -> (r: FlagStatus)
        ensures
            r == status_or_error(code@),
    {
        match FlagStatus::from_code(code) {
            Some(s) => s,
            None => FlagStatus::Error,
        }
    }
}

impl std::str::FromStr for FlagStatus {
    type Err = ();

    fn from_str(s: &str) -> Result<FlagStatus, ()> {
        match FlagStatus::from_code(s) {
            Some(status) => Ok(status),
            None => Err(()),
        }
    }
}

/// Reading a verdict's code gives the verdict back.
pub proof fn lemma_code_round_trip(s: FlagStatus)
    ensures
        status_of_code(code_of(s)) == Some(s),
{
    reveal_strlit("OK");
    reveal_strlit("DUP");
    reveal_strlit("OWN");
    reveal_strlit("OLD");
    reveal_strlit("INV");
    reveal_strlit("ERR");
    assert("OK"@.len() == 2 && "DUP"@.len() == 3 && "OWN"@.len() == 3 && "OLD"@.len() == 3);
    assert("INV"@.len() == 3 && "ERR"@.len() == 3);
    assert("DUP"@[0] == 'D' && "OWN"@[0] == 'O' && "OLD"@[0] == 'O' && "INV"@[0] == 'I'
        && "ERR"@[0] == 'E');
    assert("OWN"@[1] == 'W' && "OLD"@[1] == 'L');
}

/// Why a batch could not be submitted.
#[derive(Debug, Clone, Copy, PartialEq, Eq, Structural)]
pub enum SubmitError {
    /// The connection failed.
    NetworkError,
    /// The response was not in the expected form.
    FormatError,
}

/// The verdict for a response message of a DCTF-style scoring server.
pub open spec fn dctf_status(message: Seq<char>) -> FlagStatus {
    if message == "Flag is too old."@ {
        FlagStatus::Old
    } else if message == "You cannot submit your own flag."@ {
        FlagStatus::Own
    } else if message == "Invalid flag format."@ {
        FlagStatus::Invalid
    } else if message == "Flag already submitted."@ {
        FlagStatus::Duplicate
    } else if message == "Flag submitted."@ {
        FlagStatus::Accepted
    } else {
        FlagStatus::Error
    }
}

/// Reads a DCTF-style scoring server's message; an unknown one is an error.
pub fn dctf_status_of(message: &str) -> (r: FlagStatus)
    ensures
        r == dctf_status(message@),
{
    if str_eq(message, "Flag is too old.") {
        FlagStatus::Old
    } else if str_eq(message, "You cannot submit your own flag.") {
        FlagStatus::Own
    } else if str_eq(message, "Invalid flag format.") {
        FlagStatus::Invalid
    } else if str_eq(message, "Flag already submitted.") {
        FlagStatus::Duplicate
    } else if str_eq(message, "Flag submitted.") {
        FlagStatus::Accepted
    } else {
        FlagStatus::Error
    }
}

/// The verdict the stand-in scoring server gives for a roll of `r` out of 100: half of
/// the flags are accepted, a tenth get each other verdict.
pub open spec fn dummy_status(r: int) -> FlagStatus {
    if r < 50 {
        FlagStatus::Accepted
    } else if r < 60 {
        FlagStatus::Duplicate
    } else if r < 70 {
        FlagStatus::Own
    } else if r < 80 {
        FlagStatus::Old
    } else if r < 90 {
        FlagStatus::Invalid
    } else {
        FlagStatus::Error
    }
}

/// See [`dummy_status`].
pub fn status_for_roll(r: u32) -> (s: FlagStatus)
    requires
        r <= 99,
    ensures
        s == dummy_status(r as int),
{
    if r < 50 {
        FlagStatus::Accepted
    } else if r < 60 {
        FlagStatus::Duplicate
    } else if r < 70 {
        FlagStatus::Own
    } else if r < 80 {
        FlagStatus::Old
    } else if r < 90 {
        FlagStatus::Invalid
    } else {
        FlagStatus::Error
    }
}

/// Relies on `rand::Rng::gen_range` over `0..=99` with the thread-local generator: the
/// roll is in the range.
#[verifier::external_body]
fn roll_percent() -> (r: u32)
    ensures
        r <= 99,
{
    rand::thread_rng().gen_range(0..=99)
}

/// A stand-in scoring server that answers at random.
#[derive(Debug, Clone, Copy)]
pub struct DummySubmitter {}

impl DummySubmitter {
    /// A verdict for every flag, in order, drawn at random.
    pub fn submit(&self, flags: Vec<String>) -> (r: Vec<(String, FlagStatus)>)
        ensures
            r@.len() == flags@.len(),
            forall|i: int| 0 <= i < r@.len() ==> (#[trigger] r@[i]).0 == flags@[i],
    {
        let mut out: Vec<(String, FlagStatus)> = Vec::new();
        for flag in it: flags.into_iter()
            invariant
                it.seq() == flags@,
                out@.len() == it.index(),
                forall|i: int| 0 <= i < out@.len() ==> (#[trigger] out@[i]).0 == flags@[i],
        {
            let roll = roll_percent();
            out.push((flag, status_for_roll(roll)));
        }
        out
    }
}

} // verus!
