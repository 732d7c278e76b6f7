//! Which targets an exploit should attack in the current round.
use crate::natural::{sort_by_natural_key, sorted_by_key};
use crate::types::{Execution, Exploit, Target};
use vstd::prelude::*;
use vstd::multiset::Multiset;
use vstd::seq_lib::*;

verus! {

/// `team` is on the blacklist.
pub open spec fn blacklisted(blacklist: Seq<String>, team: Seq<char>) -> bool {
    exists|k: int| 0 <= k < blacklist.len() && (#[trigger] blacklist[k])@ == team
}

/// Some execution of exploit `exploit_id` against target `target_id` finished at or
/// after `oldest`.
pub open spec fn attacked_since(
    executions: Seq<Execution>,
    exploit_id: i32,
    target_id: i32,
    oldest: int,
) -> bool {
    exists|k: int|
        0 <= k < executions.len() && (#[trigger] executions[k]).exploit_id == exploit_id
            && executions[k].target_id == target_id && executions[k].finished_at >= oldest
}

/// `t` is a target of the exploit's service whose flag can still be submitted, that the
/// exploit has not attacked in this validity window, and whose team is not blacklisted.
pub open spec fn eligible(exploit: Exploit, executions: Seq<Execution>, oldest: int, t: Target) -> bool {
    &&& t.service@ == exploit.service@
    &&& t.created_at >= oldest
    &&& !attacked_since(executions, exploit.id, t.id, oldest)
    &&& !blacklisted(exploit.blacklist@, t.team@)
}

/// The eligible targets among `targets`, in the order given.
pub open spec fn eligible_among(
    exploit: Exploit,
    executions: Seq<Execution>,
    oldest: int,
    targets: Seq<Target>,
) -> Seq<Target> {
    targets.filter(|t: Target| eligible(exploit, executions, oldest, t))
}

/// The oldest creation time of a target whose flag is still worth taking: half a round
/// short of `flag_validity` rounds before `now` (milliseconds).
pub open spec fn oldest_valid(now: int, flag_validity: int, tick: int) -> int {
    now - (2 * flag_validity - 1) * tick * 500
}

/// See [`oldest_valid`]; `now` is in milliseconds, `tick` in seconds.
pub fn earliest_valid_time(now: i64, flag_validity: u32, tick: u64) -> (r: i64)
    requires
        flag_validity >= 1,
        i64::MIN <= oldest_valid(now as int, flag_validity as int, tick as int),
    ensures
        r == oldest_valid(now as int, flag_validity as int, tick as int),
{
    let span: i128 = (2 * flag_validity as i128 - 1) * tick as i128;
    assert(0 <= span <= (2 * u32::MAX) * u64::MAX) by (nonlinear_arith)
        requires
            span == (2 * flag_validity - 1) * tick,
            1 <= flag_validity <= u32::MAX,
            0 <= tick <= u64::MAX,
    ;
    let r: i128 = now as i128 - span * 500;
    r as i64
}

/// Whether `team` is on the blacklist.
fn is_blacklisted(blacklist: &Vec<String>, team: &String) -> (r: bool)
    ensures
        r == blacklisted(blacklist@, team@),
{
    let mut k: usize = 0;
    while k < blacklist.len()
        invariant
            k <= blacklist@.len(),
            forall|j: int| 0 <= j < k ==> (#[trigger] blacklist@[j])@ != team@,
        decreases blacklist@.len() - k,
    {
        if blacklist[k] == *team {
            return true;
        }
        k = k + 1;
    }
    false
}

/// Whether the exploit has attacked the target since `oldest`.
fn was_attacked(executions: &Vec<Execution>, exploit_id: i32, target_id: i32, oldest: i64) -> (r:
    bool)
    ensures
        r == attacked_since(executions@, exploit_id, target_id, oldest as int),
{
    let mut k: usize = 0;
    while k < executions.len()
        invariant
            k <= executions@.len(),
            forall|j: int|
                0 <= j < k ==> !((#[trigger] executions@[j]).exploit_id == exploit_id
                    && executions@[j].target_id == target_id && executions@[j].finished_at
                    >= oldest),
        decreases executions@.len() - k,
    {
        let e = &executions[k];
        if e.exploit_id == exploit_id && e.target_id == target_id && e.finished_at >= oldest {
            return true;
        }
        k = k + 1;
    }
    false
}

/// Whether `t` is eligible for `exploit`.
pub fn is_eligible(exploit: &Exploit, executions: &Vec<Execution>, oldest: i64, t: &Target) -> (r:
    bool)
    ensures
        r == eligible(*exploit, executions@, oldest as int, *t),
{
    t.service == exploit.service && t.created_at >= oldest && !was_attacked(
        executions,
        exploit.id,
        t.id,
        oldest,
    ) && !is_blacklisted(&exploit.blacklist, &t.team)
}

/// The targets `exploit` should attack: those of its service created at or after
/// `oldest`, not attacked by it since `oldest`, and not on its blacklist; oldest first,
/// then by team address in natural order.
pub fn eligible_targets(
    exploit: &Exploit,
    targets: &Vec<Target>,
    executions: &Vec<Execution>,
    oldest: i64,
) -> (r: Vec<Target>)
    ensures
        r@.to_multiset() == eligible_among(
            *exploit,
            executions@,
            oldest as int,
            targets@,
        ).to_multiset(),
        sorted_by_key(r@),
{
    let ghost pred = |t: Target| eligible(*exploit, executions@, oldest as int, t);
    let mut kept: Vec<Target> = Vec::new();
    let mut i: usize = 0;
    while i < targets.len()
        invariant
            i <= targets@.len(),
            pred == (|t: Target| eligible(*exploit, executions@, oldest as int, t)),
            kept@ == targets@.take(i as int).filter(pred),
        decreases targets@.len() - i,
    {
        let t = &targets[i];
        proof {
            reveal(Seq::filter);
            assert(targets@.take(i as int + 1).drop_last() =~= targets@.take(i as int));
        }
        if is_eligible(exploit, executions, oldest, t) {
            kept.push(t.duplicate());
        }
        i = i + 1;
    }
    proof {
        assert(targets@.take(targets@.len() as int) =~= targets@);
    }
    sort_by_natural_key(kept)
}

/// The targets of one enabled exploit.
pub struct ExploitTargets {
    /// Position of the exploit in the list that was searched.
    pub exploit: usize,
    pub targets: Vec<Target>,
}

/// For every enabled exploit, in order, its eligible targets (see [`eligible_targets`]).
pub fn get_exploitable_targets_updating(
    exploits: &Vec<Exploit>,
    targets: &Vec<Target>,
    executions: &Vec<Execution>,
    oldest: i64,
) -> (r: Vec<ExploitTargets>)
    ensures
        r@.map_values(|x: ExploitTargets| x.exploit as int) == Seq::new(
            exploits@.len(),
            |i: int| i,
        ).filter(|i: int| exploits@[i].enabled),
        forall|j: int|
            0 <= j < r@.len() ==> {
                &&& (#[trigger] r@[j]).exploit < exploits@.len()
                &&& r@[j].targets@.to_multiset() == eligible_among(
                    exploits@[r@[j].exploit as int],
                    executions@,
                    oldest as int,
                    targets@,
                ).to_multiset()
                &&& sorted_by_key(r@[j].targets@)
            },
{
    let ghost indices = Seq::new(exploits@.len(), |i: int| i);
    let ghost pred = |i: int| exploits@[i].enabled;
    let mut out: Vec<ExploitTargets> = Vec::new();
    let mut i: usize = 0;
    while i < exploits.len()
        invariant
            i <= exploits@.len(),
            indices == Seq::new(exploits@.len(), |i: int| i),
            pred == (|i: int| exploits@[i].enabled),
            out@.map_values(|x: ExploitTargets| x.exploit as int) == indices.take(i as int).filter(
                pred,
            ),
            forall|j: int|
                0 <= j < out@.len() ==> {
                    &&& (#[trigger] out@[j]).exploit < i
                    &&& out@[j].targets@.to_multiset() == eligible_among(
                        exploits@[out@[j].exploit as int],
                        executions@,
                        oldest as int,
                        targets@,
                    ).to_multiset()
                    &&& sorted_by_key(out@[j].targets@)
                },
        decreases exploits@.len() - i,
    {
        proof {
            reveal(Seq::filter);
            assert(indices.take(i as int + 1).drop_last() =~= indices.take(i as int));
        }
        if exploits[i].enabled {
            let found = eligible_targets(&exploits[i], targets, executions, oldest);
            let ghost before = out@;
            out.push(ExploitTargets { exploit: i, targets: found });
            proof {
                assert(out@.map_values(|x: ExploitTargets| x.exploit as int) =~= before.map_values(
                    |x: ExploitTargets| x.exploit as int,
                ).push(i as int));
            }
        }
        i = i + 1;
    }
    proof {
        assert(indices.take(exploits@.len() as int) =~= indices);
    }
    out
}

/// Once an execution of an exploit against a target has finished at or after `oldest`,
/// the target is no longer eligible for that exploit in the window that starts at
/// `oldest`: a runner that attacks only eligible targets attacks each target at most
/// once per exploit and window.
pub proof fn lemma_attacked_target_not_eligible(
    exploit: Exploit,
    executions: Seq<Execution>,
    oldest: int,
    t: Target,
    done: Execution,
)
    requires
        done.exploit_id == exploit.id,
        done.target_id == t.id,
        done.finished_at >= oldest,
    ensures
        !eligible(exploit, executions.push(done), oldest, t),
        !eligible_among(exploit, executions.push(done), oldest, seq![t]).contains(t),
{
    let ex = executions.push(done);
    assert(ex[executions.len() as int] == done);
    reveal_with_fuel(Seq::filter, 2);
    assert(seq![t].drop_last() =~= Seq::<Target>::empty());
}

/// Recording a finished execution takes exactly the attacked target out of the eligible
/// set: every target that stays eligible was eligible before, and the attacked one, if
/// it was eligible, is not any more.
pub proof fn lemma_requery_after_execution(
    exploit: Exploit,
    executions: Seq<Execution>,
    oldest: int,
    targets: Seq<Target>,
    done: Execution,
)
    requires
        done.exploit_id == exploit.id,
        done.finished_at >= oldest,
    ensures
        forall|t: Target|
            eligible(exploit, executions.push(done), oldest, t) <==> (eligible(
                exploit,
                executions,
                oldest,
                t,
            ) && t.id != done.target_id),
        eligible_among(exploit, executions.push(done), oldest, targets).to_multiset().subset_of(
            eligible_among(exploit, executions, oldest, targets).to_multiset(),
        ),
        forall|k: int|
            0 <= k < targets.len() && targets[k].id == done.target_id && eligible(
                exploit,
                executions,
                oldest,
                targets[k],
            ) ==> !eligible_among(exploit, executions.push(done), oldest, targets).contains(
                targets[k],
            ) && eligible_among(exploit, executions, oldest, targets).contains(targets[k]),
{
    broadcast use group_filter_ensures;

    let ex = executions.push(done);
    assert forall|t: Target|
        eligible(exploit, ex, oldest, t) <==> (eligible(exploit, executions, oldest, t) && t.id
            != done.target_id) by {
        assert(ex[executions.len() as int] == done);
        if attacked_since(executions, exploit.id, t.id, oldest) {
            let k = choose|k: int|
                0 <= k < executions.len() && (#[trigger] executions[k]).exploit_id == exploit.id
                    && executions[k].target_id == t.id && executions[k].finished_at >= oldest;
            assert(ex[k] == executions[k]);
        }
        if attacked_since(ex, exploit.id, t.id, oldest) && t.id != done.target_id {
            let k = choose|k: int|
                0 <= k < ex.len() && (#[trigger] ex[k]).exploit_id == exploit.id
                    && ex[k].target_id == t.id && ex[k].finished_at >= oldest;
            assert(executions[k] == ex[k]);
        }
    }
    lemma_filter_multiset_subset(targets, exploit, executions, ex, oldest);
    assert forall|k: int|
        0 <= k < targets.len() && targets[k].id == done.target_id && eligible(
            exploit,
            executions,
            oldest,
            targets[k],
        ) implies !eligible_among(exploit, ex, oldest, targets).contains(targets[k])
        && eligible_among(exploit, executions, oldest, targets).contains(targets[k]) by {
        if eligible_among(exploit, ex, oldest, targets).contains(targets[k]) {
            let j = choose|j: int|
                0 <= j < eligible_among(exploit, ex, oldest, targets).len() && eligible_among(
                    exploit,
                    ex,
                    oldest,
                    targets,
                )[j] == targets[k];
            assert(eligible(exploit, ex, oldest, eligible_among(exploit, ex, oldest, targets)[j]));
        }
    }
}

/// Filtering by a stronger condition keeps a sub-multiset.
proof fn lemma_filter_multiset_subset(
    targets: Seq<Target>,
    exploit: Exploit,
    weak: Seq<Execution>,
    strong: Seq<Execution>,
    oldest: int,
)
    requires
        forall|t: Target| eligible(exploit, strong, oldest, t) ==> eligible(exploit, weak, oldest, t),
    ensures
        eligible_among(exploit, strong, oldest, targets).to_multiset().subset_of(
            eligible_among(exploit, weak, oldest, targets).to_multiset(),
        ),
    decreases targets.len(),
{
    broadcast use group_to_multiset_ensures;

    reveal(Seq::filter);
    if targets.len() > 0 {
        lemma_filter_multiset_subset(targets.drop_last(), exploit, weak, strong, oldest);
    } else {
        assert(eligible_among(exploit, strong, oldest, targets).to_multiset() =~= Multiset::empty());
    }
}

} // verus!
