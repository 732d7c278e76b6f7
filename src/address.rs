//! Team addresses from team numbers, as the list-style game servers publish them.
use crate::fetcher::TeamService;
use crate::text::{chars_vec, push_char};
use vstd::prelude::*;

verus! {

/// The decimal digit character of `d`.
pub open spec fn digit_char(d: int) -> char {
    if d == 0 {
        '0'
    } else if d == 1 {
        '1'
    } else if d == 2 {
        '2'
    } else if d == 3 {
        '3'
    } else if d == 4 {
        '4'
    } else if d == 5 {
        '5'
    } else if d == 6 {
        '6'
    } else if d == 7 {
        '7'
    } else if d == 8 {
        '8'
    } else {
        '9'
    }
}

/// See [`digit_char`].
fn digit(d: u64) -> (c: char)
    requires
        d < 10,
    ensures
        c == digit_char(d as int),
{
    if d == 0 {
        '0'
    } else if d == 1 {
        '1'
    } else if d == 2 {
        '2'
    } else if d == 3 {
        '3'
    } else if d == 4 {
        '4'
    } else if d == 5 {
        '5'
    } else if d == 6 {
        '6'
    } else if d == 7 {
        '7'
    } else if d == 8 {
        '8'
    } else {
        '9'
    }
}

/// The decimal digits of a natural number, most significant first.
pub open spec fn digits(n: nat) -> Seq<char>
    decreases n,
{
    if n < 10 {
        seq![digit_char(n as int)]
    } else {
        digits(n / 10) + seq![digit_char((n % 10) as int)]
    }
}

/// The decimal text of an integer, with a leading `-` when negative.
pub open spec fn decimal(n: int) -> Seq<char> {
    if n < 0 {
        seq!['-'] + digits((-n) as nat)
    } else {
        digits(n as nat)
    }
}

/// The decimal text of `n`.
pub fn decimal_string(n: i64) -> (r: String)
    ensures
        r@ == decimal(n as int),
{
    let neg = n < 0;
    let mut m: u64 = if neg {
        (-(n as i128)) as u64
    } else {
        n as u64
    };
    let ghost whole = m as nat;
    let mut tail: Vec<char> = Vec::new();
    while m >= 10
        invariant
            digits(whole) == digits(m as nat) + tail@,
        decreases m,
    {
        let c = digit(m % 10);
        tail.insert(0, c);
        let ghost before = tail@;
        proof {
            assert(digits(m as nat) == digits((m / 10) as nat) + seq![digit_char((m % 10) as int)]);
            assert(c == digit_char((m % 10) as int));
        }
        m = m / 10;
        proof {
            assert(digits(whole) =~= digits(m as nat) + tail@);
        }
    }
    let mut out = String::new();
    if neg {
        push_char(&mut out, '-');
    }
    push_char(&mut out, digit(m));
    let mut i: usize = 0;
    while i < tail.len()
        invariant
            i <= tail@.len(),
            out@ == (if neg {
                seq!['-']
            } else {
                Seq::empty()
            }) + digits(m as nat) + tail@.take(i as int),
            m < 10,
        decreases tail@.len() - i,
    {
        push_char(&mut out, tail[i]);
        i = i + 1;
        proof {
            assert(tail@.take(i as int) =~= tail@.take(i - 1).push(tail@[i - 1]));
        }
    }
    proof {
        assert(tail@.take(tail@.len() as int) =~= tail@);
        assert(out@ =~= decimal(n as int));
    }
    out
}

/// `format` with every `{x}` replaced by `rep`, scanning from the left.
pub open spec fn substitute(format: Seq<char>, rep: Seq<char>) -> Seq<char>
    decreases format.len(),
{
    if format.len() >= 3 && format[0] == '{' && format[1] == 'x' && format[2] == '}' {
        rep + substitute(format.skip(3), rep)
    } else if format.len() > 0 {
        seq![format[0]] + substitute(format.skip(1), rep)
    } else {
        Seq::empty()
    }
}

/// The address of team `team`: `format` with each `{x}` replaced by the number.
pub fn team_address(format: &str, team: i64) -> (r: String)
    ensures
        r@ == substitute(format@, decimal(team as int)),
{
    let rep = decimal_string(team);
    let f = chars_vec(format);
    let n = f.len();
    let mut out = String::new();
    let mut i: usize = 0;
    proof {
        assert(f@.skip(0) =~= f@);
        assert(out@ + substitute(f@, rep@) =~= substitute(f@, rep@));
    }
    while i < n
        invariant
            n == f@.len(),
            f@ == format@,
            rep@ == decimal(team as int),
            i <= n,
            out@ + substitute(f@.skip(i as int), rep@) == substitute(format@, rep@),
        decreases n - i,
    {
        let ghost rest = f@.skip(i as int);
        if n - i >= 3 && f[i] == '{' && f[i + 1] == 'x' && f[i + 2] == '}' {
            proof {
                assert(rest[0] == '{' && rest[1] == 'x' && rest[2] == '}');
                assert(rest.skip(3) =~= f@.skip(i + 3));
            }
            out.append(rep.as_str());
            i = i + 3;
            proof {
                assert(out@ + substitute(f@.skip(i as int), rep@) =~= substitute(format@, rep@));
            }
        } else {
            proof {
                assert(rest[0] == f@[i as int]);
                assert(rest.skip(1) =~= f@.skip(i + 1));
            }
            let ghost before = out@;
            push_char(&mut out, f[i]);
            i = i + 1;
            proof {
                assert(out@ + substitute(f@.skip(i as int), rep@) =~= before + substitute(rest, rep@));
            }
        }
    }
    proof {
        assert(f@.skip(n as int) =~= Seq::<char>::empty());
        assert(out@ + Seq::<char>::empty() =~= out@);
    }
    out
}

/// A list-style game server: flag ids per service and team number, and the current
/// round from its scoreboard.
pub struct FaustFetcher {
    pub teams: String,
    pub scoreboard: String,
    /// How a team number becomes an address, e.g. `"10.0.{x}.1"`.
    pub format: String,
}

/// The scoreboard's answer.
pub struct Scoreboard {
    pub current_tick: i32,
}

impl FaustFetcher {
    pub fn new(teams: String, scoreboard: String, format: String) -> (r: FaustFetcher)
        ensures
            r.teams == teams,
            r.scoreboard == scoreboard,
            r.format == format,
    {
        FaustFetcher { teams, scoreboard, format }
    }

    /// The address of a team number.
    pub fn address(&self, team: i64) -> (r: String)
        ensures
            r@ == substitute(self.format@, decimal(team as int)),
    {
        team_address(self.format.as_str(), team)
    }

    /// A team's flag ids: the server does not say which round each belongs to, so
    /// all of them are put on the current round and de-duplication drops the known
    /// ones.
    pub fn team_service(current_tick: i32, flag_ids: Vec<serde_json::Value>) -> (r: TeamService)
        ensures
            r.ticks@.len() == 1,
            r.ticks@[0].0 == current_tick,
            r.ticks@[0].1 == flag_ids,
    {
        let mut ticks: Vec<(i32, Vec<serde_json::Value>)> = Vec::new();
        ticks.push((current_tick, flag_ids));
        TeamService { ticks }
    }
}

/// A fixed set of teams, `10.10.<id>.2`.
pub struct StatiskFetcher {
    pub ids: Vec<u8>,
}

impl StatiskFetcher {
    /// The team addresses.
    pub fn ips(&self) -> (r: Vec<String>)
        ensures
            r@.len() == self.ids@.len(),
            forall|i: int|
                0 <= i < r@.len() ==> (#[trigger] r@[i])@ == substitute(
                    "10.10.{x}.2"@,
                    decimal(self.ids@[i] as int),
                ),
    {
        let mut out: Vec<String> = Vec::new();
        let mut i: usize = 0;
        while i < self.ids.len()
            invariant
                i <= self.ids@.len(),
                out@.len() == i,
                forall|j: int|
                    0 <= j < i ==> (#[trigger] out@[j])@ == substitute(
                        "10.10.{x}.2"@,
                        decimal(self.ids@[j] as int),
                    ),
            decreases self.ids@.len() - i,
        {
            out.push(team_address("10.10.{x}.2", self.ids[i] as i64));
            i = i + 1;
        }
        out
    }
}

} // verus!
