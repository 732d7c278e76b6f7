//! The persisted records. Timestamps are milliseconds since the Unix epoch.
use crate::natural::NaturalKey;
use vstd::prelude::*;

verus! {

/// A competing host.
pub struct Team {
    pub ip: String,
    /// `"nop"` for the non-competing host, `"own"` for our own, otherwise unset.
    pub name: Option<String>,
}

/// A service of the game.
pub struct Service {
    pub name: String,
}

/// One `(service, team, flag id)` to attack.
pub struct Target {
    pub id: i32,
    pub flag_id: String,
    pub service: String,
    pub team: String,
    pub created_at: i64,
    pub target_tick: i32,
}

/// A target row that is yet to be stored.
pub struct TargetInserter {
    pub flag_id: String,
    pub service: String,
    pub team: String,
    pub created_at: i64,
    pub target_tick: i32,
}

/// An exploit and its container pool.
pub struct Exploit {
    pub id: i32,
    pub name: String,
    pub service: String,
    /// Team addresses never to attack.
    pub blacklist: Vec<String>,
    pub enabled: bool,
    pub docker_image: String,
    pub docker_containers: Vec<String>,
    pub pool_size: i32,
}

/// One captured flag.
pub struct Flag {
    pub id: i32,
    pub text: String,
    /// Empty until the scoring server has answered.
    pub status: String,
    pub submitted: bool,
    pub timestamp: i64,
    pub execution_id: i32,
    pub exploit_id: i32,
}

/// One run of an exploit against a target.
pub struct Execution {
    pub id: i32,
    pub exploit_id: i32,
    pub output: String,
    pub exit_code: i32,
    pub started_at: i64,
    pub finished_at: i64,
    pub target_id: i32,
}

/// An execution row that is yet to be stored.
pub struct ExecutionInserter {
    pub exploit_id: i32,
    pub output: String,
    pub exit_code: i32,
    pub started_at: i64,
    pub finished_at: i64,
    pub target_id: i32,
}

/// A flag row that is yet to be stored.
pub struct FlagInserter {
    pub text: String,
    pub status: String,
    pub submitted: bool,
    pub timestamp: i64,
    pub execution_id: i32,
    pub exploit_id: i32,
}

/// What an exploit attacks.
pub enum AttackTarget {
    /// One service, on the targets the fetcher found for it.
    Service(String),
    /// Every team address; for services without flag ids.
    Ips,
}

/// The result of one run of an exploit.
pub struct RunLog {
    pub exit_code: i32,
    pub output: String,
}

/// A run with the round it belongs to and the flag store it aimed at.
pub struct StampedRunLog {
    pub tick: i64,
    pub flagstore: Option<String>,
    pub log: RunLog,
}

impl Target {
    /// A copy of this target.
    pub fn duplicate(&self) -> (r: Target)
        ensures
            r == *self,
    {
        Target {
            id: self.id,
            flag_id: self.flag_id.clone(),
            service: self.service.clone(),
            team: self.team.clone(),
            created_at: self.created_at,
            target_tick: self.target_tick,
        }
    }
}

/// Targets are ordered oldest first, then by team address.
impl NaturalKey for Target {
    open spec fn primary_key(&self) -> int {
        self.created_at as int
    }

    open spec fn name_key(&self) -> Seq<char> {
        self.team@
    }

    fn primary(&self) -> (r: i64) {
        self.created_at
    }

    fn name(&self) -> (r: &str) {
        self.team.as_str()
    }
}

} // verus!
