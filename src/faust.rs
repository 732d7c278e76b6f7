//! The line-based submission protocol: flags go out one per line, and the server
//! answers one line `<flag> <code> [<message>]` per flag.
use crate::handler::join_lines;
use crate::submitter::{status_or_error, FlagStatus, SubmitError};
use crate::text::{chars_vec, find_char, index_of, string_of};
use vstd::prelude::*;

verus! {

/// Unicode white space, as `str::trim` removes it.
pub open spec fn is_white(c: char) -> bool {
    let u = c as u32;
    ||| 0x9 <= u <= 0xD
    ||| u == 0x20
    ||| u == 0x85
    ||| u == 0xA0
    ||| u == 0x1680
    ||| 0x2000 <= u <= 0x200A
    ||| u == 0x2028
    ||| u == 0x2029
    ||| u == 0x202F
    ||| u == 0x205F
    ||| u == 0x3000
}

fn white(c: char) -> (r: bool)
    ensures
        r == is_white(c),
{
    let u = c as u32;
    (0x9 <= u && u <= 0xD) || u == 0x20 || u == 0x85 || u == 0xA0 || u == 0x1680 || (0x2000 <= u
        && u <= 0x200A) || u == 0x2028 || u == 0x2029 || u == 0x202F || u == 0x205F || u == 0x3000
}

/// `s` without leading white space.
pub open spec fn trim_start(s: Seq<char>) -> Seq<char>
    decreases s.len(),
{
    if s.len() > 0 && is_white(s[0]) {
        trim_start(s.drop_first())
    } else {
        s
    }
}

/// `s` without trailing white space.
pub open spec fn trim_end(s: Seq<char>) -> Seq<char>
    decreases s.len(),
{
    if s.len() > 0 && is_white(s.last()) {
        trim_end(s.drop_last())
    } else {
        s
    }
}

/// The pieces of `s` between newlines; an empty `s` is one empty piece.
pub open spec fn split_lines(s: Seq<char>) -> Seq<Seq<char>>
    decreases s.len(),
{
    if s.len() == 0 {
        seq![Seq::empty()]
    } else {
        let p = split_lines(s.drop_last());
        if s.last() == '\n' {
            p.push(Seq::empty())
        } else {
            p.update(p.len() - 1, p.last().push(s.last()))
        }
    }
}

/// The code of an answer line: the word after the flag.
pub open spec fn code_after(rest: Seq<char>) -> Seq<char> {
    if index_of(rest, ' ') < 0 {
        rest
    } else {
        rest.take(index_of(rest, ' '))
    }
}

/// One answer line: the flag up to the first space, then the code up to the next
/// space or the end. An unknown code is an error verdict; a line without a space is
/// malformed.
pub open spec fn parse_line(line: Seq<char>) -> Option<(Seq<char>, FlagStatus)> {
    let k = index_of(line, ' ');
    if k < 0 {
        None
    } else {
        Some((line.take(k), status_or_error(code_after(line.skip(k + 1)))))
    }
}

/// Every line parsed, or `None` if one is malformed.
pub open spec fn parse_lines(lines: Seq<Seq<char>>) -> Option<Seq<(Seq<char>, FlagStatus)>>
    decreases lines.len(),
{
    if lines.len() == 0 {
        Some(Seq::empty())
    } else {
        match (parse_lines(lines.drop_last()), parse_line(lines.last())) {
            (Some(p), Some(x)) => Some(p.push(x)),
            _ => None,
        }
    }
}

/// The verdicts in a server's answer to `n` flags: the trimmed answer must have
/// exactly `n` lines, each well formed.
pub open spec fn parse_answer(answer: Seq<char>, n: int) -> Option<Seq<(Seq<char>, FlagStatus)>> {
    let lines = split_lines(trim_end(trim_start(answer)));
    if lines.len() != n {
        None
    } else {
        parse_lines(lines)
    }
}

/// A verdict list in plain values.
pub open spec fn verdicts_view(v: Seq<(String, FlagStatus)>) -> Seq<(Seq<char>, FlagStatus)> {
    v.map_values(|x: (String, FlagStatus)| (x.0@, x.1))
}

proof fn lemma_split_nonempty(s: Seq<char>)
    ensures
        split_lines(s).len() >= 1,
    decreases s.len(),
{
    if s.len() > 0 {
        lemma_split_nonempty(s.drop_last());
    }
}

/// The bounds of `v` without its leading and trailing white space.
fn trim_bounds(v: &Vec<char>) -> (r: (usize, usize))
    ensures
        r.0 <= r.1 <= v@.len(),
        v@.subrange(r.0 as int, r.1 as int) == trim_end(trim_start(v@)),
{
    let n = v.len();
    let mut lo: usize = 0;
    assert(v@.skip(0) =~= v@);
    while lo < n && white(v[lo])
        invariant
            lo <= n == v@.len(),
            trim_start(v@) == trim_start(v@.skip(lo as int)),
        decreases n - lo,
    {
        proof {
            assert(v@.skip(lo as int).drop_first() =~= v@.skip(lo + 1));
        }
        lo = lo + 1;
    }
    proof {
        assert(trim_start(v@.skip(lo as int)) == v@.skip(lo as int));
    }
    let mut hi: usize = n;
    while hi > lo && white(v[hi - 1])
        invariant
            lo <= hi <= n == v@.len(),
            trim_start(v@) == v@.skip(lo as int),
            trim_end(trim_start(v@)) == trim_end(v@.subrange(lo as int, hi as int)),
        decreases hi - lo,
    {
        proof {
            assert(v@.subrange(lo as int, hi as int).drop_last() =~= v@.subrange(
                lo as int,
                hi - 1,
            ));
        }
        hi = hi - 1;
    }
    proof {
        assert(v@.skip(lo as int) =~= v@.subrange(lo as int, n as int));
    }
    (lo, hi)
}

/// The lines of `v[lo..hi]`, as bounds into `v`.
fn line_bounds(v: &Vec<char>, lo: usize, hi: usize) -> (r: Vec<(usize, usize)>)
    requires
        lo <= hi <= v@.len(),
    ensures
        r@.len() == split_lines(v@.subrange(lo as int, hi as int)).len(),
        forall|j: int|
            0 <= j < r@.len() ==> (#[trigger] r@[j]).0 <= r@[j].1 <= hi && v@.subrange(
                r@[j].0 as int,
                r@[j].1 as int,
            ) == split_lines(v@.subrange(lo as int, hi as int))[j],
{
    let ghost s = v@.subrange(lo as int, hi as int);
    let mut out: Vec<(usize, usize)> = Vec::new();
    let mut start: usize = lo;
    let mut i: usize = lo;
    while i < hi
        invariant
            lo <= start <= i <= hi <= v@.len(),
            s == v@.subrange(lo as int, hi as int),
            out@.len() + 1 == split_lines(s.take(i - lo)).len(),
            forall|j: int|
                0 <= j < out@.len() ==> (#[trigger] out@[j]).0 <= out@[j].1 <= hi && v@.subrange(
                    out@[j].0 as int,
                    out@[j].1 as int,
                ) == split_lines(s.take(i - lo))[j],
            v@.subrange(start as int, i as int) == split_lines(s.take(i - lo)).last(),
        decreases hi - i,
    {
        let ghost k = i - lo;
        let ghost p = split_lines(s.take(k));
        proof {
            assert(s.take(k + 1).drop_last() =~= s.take(k));
            assert(s.take(k + 1).last() == v@[i as int]);
            lemma_split_nonempty(s.take(k));
        }
        if v[i] == '\n' {
            out.push((start, i));
            start = i + 1;
            proof {
                assert(v@.subrange(start as int, i + 1) =~= Seq::<char>::empty());
            }
        } else {
            proof {
                assert(v@.subrange(start as int, i + 1) =~= v@.subrange(start as int, i as int).push(
                    v@[i as int],
                ));
            }
        }
        i = i + 1;
    }
    out.push((start, hi));
    proof {
        assert(s.take(hi - lo) =~= s);
    }
    out
}

/// Parses the answer line `v[lo..hi]`.
fn answer_line(v: &Vec<char>, lo: usize, hi: usize) -> (r: Option<(String, FlagStatus)>)
    requires
        lo <= hi <= v@.len(),
        hi <= i64::MAX,
    ensures
        r matches Some(x) ==> parse_line(v@.subrange(lo as int, hi as int)) == Some(
            (x.0@, x.1),
        ),
        r is None ==> parse_line(v@.subrange(lo as int, hi as int)) is None,
{
    let ghost line = v@.subrange(lo as int, hi as int);
    let k = find_char(v, lo, hi, ' ');
    if k < 0 {
        return None;
    }
    let ku = lo + k as usize;
    let flag = string_of(v, lo, ku);
    let j = find_char(v, ku + 1, hi, ' ');
    let code = if j < 0 {
        string_of(v, ku + 1, hi)
    } else {
        string_of(v, ku + 1, ku + 1 + j as usize)
    };
    let status = FlagStatus::from_code_or_error(code.as_str());
    proof {
        assert(line.take(k as int) =~= v@.subrange(lo as int, ku as int));
        assert(line.skip(k + 1) =~= v@.subrange(ku + 1, hi as int));
        if j >= 0 {
            assert(line.skip(k + 1).take(j as int) =~= v@.subrange(ku + 1, ku + 1 + j));
        }
    }
    Some((flag, status))
}

/// Reads the server's answer to `n` flags: one verdict per line, in order. An answer
/// with another number of lines, or with a line that has no space, is a format error.
pub fn parse_submit_answer(answer: &str, n: usize) -> (r: Result<Vec<(String, FlagStatus)>, SubmitError>)
    requires
        answer@.len() <= i64::MAX,
    ensures
        r matches Ok(v) ==> parse_answer(answer@, n as int) == Some(verdicts_view(v@)),
        r matches Err(e) ==> e == SubmitError::FormatError && parse_answer(answer@, n as int)
            is None,
{
    let v = chars_vec(answer);
    let (lo, hi) = trim_bounds(&v);
    let lines = line_bounds(&v, lo, hi);
    let ghost ls = split_lines(v@.subrange(lo as int, hi as int));
    if lines.len() != n {
        return Err(SubmitError::FormatError);
    }
    let mut out: Vec<(String, FlagStatus)> = Vec::new();
    let mut i: usize = 0;
    while i < lines.len()
        invariant
            i <= lines@.len() == ls.len(),
            lines@.len() == n,
            lo <= hi <= v@.len() == answer@.len() <= i64::MAX,
            v@ == answer@,
            v@.subrange(lo as int, hi as int) == trim_end(trim_start(answer@)),
            ls == split_lines(v@.subrange(lo as int, hi as int)),
            forall|j: int|
                0 <= j < lines@.len() ==> (#[trigger] lines@[j]).0 <= lines@[j].1 <= hi
                    && v@.subrange(lines@[j].0 as int, lines@[j].1 as int) == ls[j],
            parse_lines(ls.take(i as int)) == Some(verdicts_view(out@)),
        decreases lines@.len() - i,
    {
        let (a, b) = lines[i];
        proof {
            assert(ls.take(i + 1).drop_last() =~= ls.take(i as int));
            assert(ls.take(i + 1).last() == ls[i as int]);
        }
        match answer_line(&v, a, b) {
            Some(x) => {
                let ghost before = out@;
                out.push(x);
                proof {
                    assert(verdicts_view(out@) =~= verdicts_view(before).push((x.0@, x.1)));
                }
            },
            None => {
                proof {
                    assert(v@.subrange(a as int, b as int) == ls[i as int]);
                    lemma_parse_lines_fails(ls, i as int);
                    assert(v@ == answer@);
                    assert(v@.subrange(lo as int, hi as int) == trim_end(trim_start(answer@)));
                }
                return Err(SubmitError::FormatError);
            },
        }
        i = i + 1;
    }
    proof {
        assert(ls.take(ls.len() as int) =~= ls);
    }
    Ok(out)
}

/// One malformed line spoils the whole answer.
proof fn lemma_parse_lines_fails(ls: Seq<Seq<char>>, i: int)
    requires
        0 <= i < ls.len(),
        parse_line(ls[i]) is None,
    ensures
        parse_lines(ls) is None,
    decreases ls.len(),
{
    if i < ls.len() - 1 {
        assert(ls.drop_last()[i] == ls[i]);
        lemma_parse_lines_fails(ls.drop_last(), i);
    }
}

/// A line-protocol scoring server.
pub struct FaustSubmitter {
    pub host: String,
    /// Where the server's greeting ends.
    pub header_suffix: String,
}

impl FaustSubmitter {
    pub fn new(host: String, header_suffix: String) -> (r: FaustSubmitter)
        ensures
            r.host == host,
            r.header_suffix == header_suffix,
    {
        FaustSubmitter { host, header_suffix }
    }

    /// What is sent for a batch: each flag on a line of its own.
    pub fn payload(&self, flags: &Vec<String>) -> (r: String)
        ensures
            r@ == join_lines(flags@),
    {
        crate::handler::lines_of(flags)
    }

    /// Reads the answer to `flags`; an empty batch needs no answer.
    pub fn verdicts(&self, flags: &Vec<String>, answer: &str) -> (r: Result<
        Vec<(String, FlagStatus)>,
        SubmitError,
    >)
        requires
            answer@.len() <= i64::MAX,
        ensures
            flags@.len() == 0 ==> (r matches Ok(v) && v@.len() == 0),
            flags@.len() > 0 ==> (r matches Ok(v) ==> parse_answer(answer@, flags@.len() as int)
                == Some(verdicts_view(v@))),
            flags@.len() > 0 ==> (r is Err ==> parse_answer(answer@, flags@.len() as int) is None),
    {
        if flags.len() == 0 {
            return Ok(Vec::new());
        }
        parse_submit_answer(answer, flags.len())
    }
}

} // verus!
