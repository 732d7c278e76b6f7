//! Flattened rows for operators: records joined with their target.
use crate::types::{Execution, Exploit, Flag, Target};
use vstd::prelude::*;

verus! {

/// `items` separated by `sep`.
pub open spec fn join_with(items: Seq<String>, sep: Seq<char>) -> Seq<char>
    decreases items.len(),
{
    if items.len() == 0 {
        Seq::empty()
    } else if items.len() == 1 {
        items[0]@
    } else {
        join_with(items.drop_last(), sep) + sep + items.last()@
    }
}

/// `items` separated by `", "`.
pub fn join_comma(items: &Vec<String>) -> (r: String)
    ensures
        r@ == join_with(items@, ", "@),
{
    let mut out = String::new();
    let mut i: usize = 0;
    while i < items.len()
        invariant
            i <= items@.len(),
            out@ == join_with(items@.take(i as int), ", "@),
        decreases items@.len() - i,
    {
        proof {
            assert(items@.take(i + 1).drop_last() =~= items@.take(i as int));
        }
        if i > 0 {
            out.append(", ");
        }
        out.append(items[i].as_str());
        i = i + 1;
        proof {
            if i == 1 {
                assert(out@ =~= items@.take(1)[0]@);
            }
        }
    }
    proof {
        assert(items@.take(items@.len() as int) =~= items@);
    }
    out
}

/// An exploit as operators see it, with its blacklist as one line.
pub struct ExploitData {
    pub id: i32,
    pub name: String,
    pub service: String,
    pub enabled: bool,
    pub blacklist: String,
    pub pool_size: i32,
}

impl ExploitData {
    pub fn from_model(exploit: Exploit) -> (r: ExploitData)
        ensures
            r.id == exploit.id,
            r.name == exploit.name,
            r.service == exploit.service,
            r.enabled == exploit.enabled,
            r.blacklist@ == join_with(exploit.blacklist@, ", "@),
            r.pool_size == exploit.pool_size,
    {
        let blacklist = join_comma(&exploit.blacklist);
        ExploitData {
            id: exploit.id,
            name: exploit.name,
            service: exploit.service,
            enabled: exploit.enabled,
            blacklist,
            pool_size: exploit.pool_size,
        }
    }
}

/// An execution with the service, team and round of its target.
pub struct ExecutionData {
    pub exit_code: i32,
    pub exploit_id: i32,
    pub finished_at: i64,
    pub id: i32,
    pub output: String,
    pub started_at: i64,
    pub target_id: i32,
    pub service: String,
    pub target_tick: i32,
    pub team: String,
}

impl ExecutionData {
    pub fn from_models(exec: Execution, target: Target) -> (r: ExecutionData)
        ensures
            r.exit_code == exec.exit_code && r.exploit_id == exec.exploit_id && r.finished_at
                == exec.finished_at && r.id == exec.id && r.output == exec.output && r.started_at
                == exec.started_at && r.target_id == exec.target_id,
            r.service == target.service && r.target_tick == target.target_tick && r.team
                == target.team,
    {
        ExecutionData {
            exit_code: exec.exit_code,
            exploit_id: exec.exploit_id,
            finished_at: exec.finished_at,
            id: exec.id,
            output: exec.output,
            started_at: exec.started_at,
            target_id: exec.target_id,
            service: target.service,
            target_tick: target.target_tick,
            team: target.team,
        }
    }
}

/// A flag with the service, team and round of its target.
pub struct FlagData {
    pub execution_id: i32,
    pub exploit_id: i32,
    pub id: i32,
    pub status: String,
    pub submitted: bool,
    pub text: String,
    pub timestamp: i64,
    pub service: String,
    pub target_tick: i32,
    pub team: String,
}

impl FlagData {
    pub fn from_models(flag: Flag, target: Target) -> (r: FlagData)
        ensures
            r.execution_id == flag.execution_id && r.exploit_id == flag.exploit_id && r.id
                == flag.id && r.status == flag.status && r.submitted == flag.submitted && r.text
                == flag.text && r.timestamp == flag.timestamp,
            r.service == target.service && r.target_tick == target.target_tick && r.team
                == target.team,
    {
        FlagData {
            execution_id: flag.execution_id,
            exploit_id: flag.exploit_id,
            id: flag.id,
            status: flag.status,
            submitted: flag.submitted,
            text: flag.text,
            timestamp: flag.timestamp,
            service: target.service,
            target_tick: target.target_tick,
            team: target.team,
        }
    }
}

} // verus!
