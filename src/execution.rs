//! What one run of an exploit leaves behind: its execution record and its flags.
use crate::types::{ExecutionInserter, FlagInserter};
use vstd::prelude::*;

verus! {

/// The texts of the successive non-overlapping leftmost matches of the regular
/// expression `pattern` in `text`; `None` if `pattern` is not a valid expression.
pub uninterp spec fn regex_matches(pattern: Seq<char>, text: Seq<char>) -> Option<Seq<Seq<char>>>;

/// Relies on `regex::Regex::new` and `regex::Regex::find_iter`: the matched texts are a
/// function of the pattern and the text.
#[verifier::external_body]
fn find_matches(pattern: &str, text: &str) -> (r: Option<Vec<String>>)
    ensures
        r is None <==> regex_matches(pattern@, text@) is None,
        r matches Some(v) ==> regex_matches(pattern@, text@) == Some(
            v@.map_values(|s: String| s@),
        ),
{
    regex::Regex::new(pattern).ok().map(
        |re| re.find_iter(text).map(|m| m.as_str().to_string()).collect(),
    )
}

/// `s` without its zero characters.
pub open spec fn strip_nul(s: Seq<char>) -> Seq<char> {
    s.filter(|c: char| c != '\0')
}

/// Relies on `str::replace`: every `'\0'` replaced by nothing.
#[verifier::external_body]
fn remove_nul(s: &str) -> (r: String)
    ensures
        r@ == strip_nul(s@),
{
    s.replace('\0', "")
}

/// The note appended to the output of a run that was abandoned after its timeout.
pub open spec fn timeout_marker() -> Seq<char> {
    "\nangrepa: listener killed due to timeout"@
}

/// How a run ended.
pub enum RunOutcome {
    /// The exploit exited with this code.
    Exited(i32),
    /// The runner stopped waiting for it.
    TimedOut,
}

/// The execution record of a run: the output without zero characters, with the
/// timeout note after it if the run was abandoned (then with exit code 0), and a
/// finishing time no earlier than the start.
pub fn execution_record(
    exploit_id: i32,
    target_id: i32,
    raw_output: &str,
    outcome: RunOutcome,
    started_at: i64,
    finished_at: i64,
) -> (r: ExecutionInserter)
    ensures
        r.exploit_id == exploit_id,
        r.target_id == target_id,
        r.started_at == started_at,
        r.finished_at == if finished_at < started_at {
            started_at
        } else {
            finished_at
        },
        outcome matches RunOutcome::Exited(code) ==> r.output@ == strip_nul(raw_output@)
            && r.exit_code == code,
        outcome is TimedOut ==> r.output@ == strip_nul(raw_output@) + timeout_marker()
            && r.exit_code == 0,
{
    let mut output = remove_nul(raw_output);
    let exit_code = match outcome {
        RunOutcome::Exited(code) => code,
        RunOutcome::TimedOut => {
            output.append("\nangrepa: listener killed due to timeout");
            0
        },
    };
    ExecutionInserter {
        exploit_id,
        output,
        exit_code,
        started_at,
        finished_at: if finished_at < started_at {
            started_at
        } else {
            finished_at
        },
        target_id,
    }
}

/// The values of `s` in order of first occurrence, each once.
pub open spec fn distinct_in_order(s: Seq<Seq<char>>) -> Seq<Seq<char>>
    decreases s.len(),
{
    if s.len() == 0 {
        Seq::empty()
    } else {
        let prev = distinct_in_order(s.drop_last());
        if s.drop_last().contains(s.last()) {
            prev
        } else {
            prev.push(s.last())
        }
    }
}

/// Keeps the first occurrence of each text.
pub fn unique_texts(texts: Vec<String>) -> (r: Vec<String>)
    ensures
        r@.map_values(|s: String| s@) == distinct_in_order(texts@.map_values(|s: String| s@)),
{
    let ghost all = texts@.map_values(|s: String| s@);
    let mut out: Vec<String> = Vec::new();
    let mut i: usize = 0;
    while i < texts.len()
        invariant
            i <= texts@.len(),
            all == texts@.map_values(|s: String| s@),
            out@.map_values(|s: String| s@) == distinct_in_order(all.take(i as int)),
        decreases texts@.len() - i,
    {
        let mut j: usize = 0;
        let mut dup = false;
        while j < i
            invariant
                i < texts@.len(),
                j <= i,
                all == texts@.map_values(|s: String| s@),
                dup == exists|k: int| 0 <= k < j && all[k] == all[i as int],
            decreases i - j,
        {
            proof {
                assert(all[j as int] == texts@[j as int]@ && all[i as int] == texts@[i as int]@);
            }
            if texts[j] == texts[i] {
                dup = true;
            }
            j = j + 1;
        }
        let ghost before = out@;
        proof {
            let pre = all.take(i as int);
            assert(all.take(i + 1).drop_last() =~= pre);
            assert(all.take(i + 1).last() == all[i as int]);
            if dup {
                let k = choose|k: int| 0 <= k < i && all[k] == all[i as int];
                assert(pre[k] == all[i as int]);
            } else {
                assert forall|k: int| 0 <= k < pre.len() implies pre[k] != all[i as int] by {
                    assert(pre[k] == all[k]);
                }
            }
        }
        if !dup {
            out.push(texts[i].clone());
            proof {
                assert(out@.map_values(|s: String| s@) =~= before.map_values(|s: String| s@).push(
                    all[i as int],
                ));
            }
        }
        i = i + 1;
    }
    proof {
        assert(all.take(texts@.len() as int) =~= all);
    }
    out
}

/// The flags in an execution's output: each distinct match of the flag pattern once,
/// in order of first occurrence; none if the pattern is not a valid expression.
pub fn extract_flags(format: &str, output: &str) -> (r: Vec<String>)
    ensures
        regex_matches(format@, output@) matches Some(ms) ==> r@.map_values(|s: String| s@)
            == distinct_in_order(ms),
        regex_matches(format@, output@) is None ==> r@.len() == 0,
{
    match find_matches(format, output) {
        Some(matches) => unique_texts(matches),
        None => Vec::new(),
    }
}

/// Flags are distinct and cover every match: every matched text appears exactly once
/// among the flags, and every flag is a matched text.
pub proof fn lemma_flags_cover_matches(ms: Seq<Seq<char>>)
    ensures
        forall|i: int| 0 <= i < ms.len() ==> distinct_in_order(ms).contains(#[trigger] ms[i]),
        forall|i: int|
            0 <= i < distinct_in_order(ms).len() ==> ms.contains(
                #[trigger] distinct_in_order(ms)[i],
            ),
        forall|i: int, j: int|
            0 <= i < j < distinct_in_order(ms).len() ==> #[trigger] distinct_in_order(ms)[i]
                != #[trigger] distinct_in_order(ms)[j],
    decreases ms.len(),
{
    if ms.len() > 0 {
        let prev = ms.drop_last();
        lemma_flags_cover_matches(prev);
        let d = distinct_in_order(ms);
        let dp = distinct_in_order(prev);
        assert forall|i: int| 0 <= i < ms.len() implies d.contains(#[trigger] ms[i]) by {
            if i < ms.len() - 1 {
                assert(prev[i] == ms[i]);
                assert(dp.contains(prev[i]));
                let k = choose|k: int| 0 <= k < dp.len() && dp[k] == prev[i];
                assert(d[k] == dp[k]);
            } else if prev.contains(ms.last()) {
                let k = choose|k: int| 0 <= k < prev.len() && prev[k] == ms.last();
                assert(dp.contains(prev[k]));
                let m = choose|m: int| 0 <= m < dp.len() && dp[m] == prev[k];
                assert(d[m] == dp[m]);
            } else {
                assert(d[d.len() - 1] == ms.last());
            }
        }
        assert forall|i: int| 0 <= i < d.len() implies ms.contains(#[trigger] d[i]) by {
            if i < dp.len() {
                assert(d[i] == dp[i]);
                let k = choose|k: int| 0 <= k < prev.len() && prev[k] == dp[i];
                assert(ms[k] == prev[k]);
            } else {
                assert(ms[ms.len() - 1] == d[i]);
            }
        }
        assert forall|i: int, j: int| 0 <= i < j < d.len() implies #[trigger] d[i] != #[trigger] d[j] by {
            if j < dp.len() {
                assert(d[i] == dp[i] && d[j] == dp[j]);
            } else {
                assert(d[i] == dp[i]);
                let k = choose|k: int| 0 <= k < prev.len() && prev[k] == dp[i];
                assert(!prev.contains(ms.last()));
            }
        }
    }
}

/// The flag rows of an execution: one per flag, not yet submitted, with no status.
pub fn flag_rows(flags: Vec<String>, execution_id: i32, exploit_id: i32, now: i64) -> (r: Vec<
    FlagInserter,
>)
    ensures
        r@.len() == flags@.len(),
        forall|i: int|
            0 <= i < r@.len() ==> (#[trigger] r@[i]).text == flags@[i] && r@[i].status@.len() == 0
                && !r@[i].submitted && r@[i].timestamp == now && r@[i].execution_id == execution_id
                && r@[i].exploit_id == exploit_id,
{
    let mut out: Vec<FlagInserter> = Vec::new();
    for text in it: flags.into_iter()
        invariant
            it.seq() == flags@,
            out@.len() == it.index(),
            forall|i: int|
                0 <= i < out@.len() ==> (#[trigger] out@[i]).text == flags@[i]
                    && out@[i].status@.len() == 0 && !out@[i].submitted && out@[i].timestamp == now
                    && out@[i].execution_id == execution_id && out@[i].exploit_id == exploit_id,
    {
        out.push(
            FlagInserter {
                text,
                status: String::new(),
                submitted: false,
                timestamp: now,
                execution_id,
                exploit_id,
            },
        );
    }
    out
}

/// The environment of an exploit run against `team`: `IP=<team>` and
/// `FLAG_ID=<flag id>`.
pub fn exploit_env(team: &str, flag_id: &str) -> (r: Vec<String>)
    ensures
        r@.len() == 2,
        r@[0]@ == "IP="@ + team@,
        r@[1]@ == "FLAG_ID="@ + flag_id@,
{
    let mut ip = String::from_str("IP=");
    ip.append(team);
    let mut fid = String::from_str("FLAG_ID=");
    fid.append(flag_id);
    let mut env: Vec<String> = Vec::new();
    env.push(ip);
    env.push(fid);
    env
}

} // verus!
