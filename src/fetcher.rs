//! One round of the fetcher: from the game server's flag ids to the target rows to
//! insert.
use crate::config::{mapping_of, names_of, rename_service, renamed, Common};
use crate::json::flag_id_text;
use crate::natural::{sort_by_natural_key, NaturalKey};
use crate::seen::{fresh_records, seen_after, FlagIdRecord, SeenFlagIds};
use crate::types::TargetInserter;
use vstd::prelude::*;

verus! {

/// A team's instance of a service: for each round, the flag ids published for it.
pub struct TeamService {
    pub ticks: Vec<(i32, Vec<serde_json::Value>)>,
}

/// A service: each team's instance of it, by team address.
pub struct Service {
    pub teams: Vec<(String, TeamService)>,
}

/// Every service with flag ids, by name.
pub struct ServiceMap(pub Vec<(String, Service)>);

/// The service names of a map.
pub open spec fn map_names(m: ServiceMap) -> Set<Seq<char>> {
    Set::new(|n: Seq<char>| exists|i: int| 0 <= i < m.0@.len() && (#[trigger] m.0@[i]).0@ == n)
}

impl ServiceMap {
    /// Renames the services; the content of each stays as it is.
    pub fn apply_name_mapping(self, mapping: &Vec<(String, String)>) -> (r: ServiceMap)
        ensures
            r.0@.len() == self.0@.len(),
            forall|i: int|
                0 <= i < self.0@.len() ==> (#[trigger] r.0@[i]).0@ == renamed(
                    mapping@,
                    self.0@[i].0@,
                ) && r.0@[i].1 == self.0@[i].1,
    {
        let mut out: Vec<(String, Service)> = Vec::new();
        for entry in it: self.0.into_iter()
            invariant
                it.seq() == self.0@,
                out@.len() == it.index(),
                forall|i: int|
                    0 <= i < out@.len() ==> (#[trigger] out@[i]).0@ == renamed(
                        mapping@,
                        self.0@[i].0@,
                    ) && out@[i].1 == self.0@[i].1,
        {
            let (name, service) = entry;
            out.push((rename_service(mapping, &name), service));
        }
        ServiceMap(out)
    }

    /// The names of the services.
    pub fn service_names(&self) -> (r: Vec<String>)
        ensures
            names_of(r@) == map_names(*self),
    {
        let mut out: Vec<String> = Vec::new();
        let mut i: usize = 0;
        while i < self.0.len()
            invariant
                i <= self.0@.len(),
                out@.len() == i,
                forall|j: int| 0 <= j < i ==> (#[trigger] out@[j])@ == self.0@[j].0@,
            decreases self.0@.len() - i,
        {
            out.push(self.0[i].0.clone());
            i = i + 1;
        }
        proof {
            assert forall|n: Seq<char>| names_of(out@).contains(n) implies map_names(*self).contains(n) by {
                let j = choose|j: int| 0 <= j < out@.len() && (#[trigger] out@[j])@ == n;
                assert(self.0@[j].0@ == n);
            }
            assert forall|n: Seq<char>| map_names(*self).contains(n) implies names_of(out@).contains(n) by {
                let j = choose|j: int| 0 <= j < self.0@.len() && (#[trigger] self.0@[j]).0@ == n;
                assert(out@[j]@ == n);
            }
            assert(names_of(out@) =~= map_names(*self));
        }
        out
    }
}

/// Whether `v` holds `name`.
fn holds_name(v: &Vec<String>, name: &String) -> (r: bool)
    ensures
        r == names_of(v@).contains(name@),
{
    let mut i: usize = 0;
    while i < v.len()
        invariant
            i <= v@.len(),
            forall|j: int| 0 <= j < i ==> (#[trigger] v@[j])@ != name@,
        decreases v@.len() - i,
    {
        if v[i] == *name {
            return true;
        }
        i = i + 1;
    }
    false
}

/// The names in `a` that are not in `b`.
pub fn names_missing_from(a: &Vec<String>, b: &Vec<String>) -> (r: Vec<String>)
    ensures
        names_of(r@) == names_of(a@).difference(names_of(b@)),
{
    let mut out: Vec<String> = Vec::new();
    let mut i: usize = 0;
    while i < a.len()
        invariant
            i <= a@.len(),
            forall|n: Seq<char>|
                #[trigger] names_of(out@).contains(n) == (names_of(a@.take(i as int)).contains(n)
                    && !names_of(b@).contains(n)),
        decreases a@.len() - i,
    {
        let ghost before = out@;
        let ghost ai = a@[i as int];
        if !holds_name(b, &a[i]) {
            out.push(a[i].clone());
        }
        proof {
            assert forall|n: Seq<char>| #[trigger] names_of(out@).contains(n) == (names_of(
                a@.take(i + 1),
            ).contains(n) && !names_of(b@).contains(n)) by {
                if names_of(a@.take(i + 1)).contains(n) {
                    let j = choose|j: int|
                        0 <= j < a@.take(i + 1).len() && (#[trigger] a@.take(i + 1)[j])@ == n;
                    if j < i {
                        assert(a@.take(i as int)[j] == a@[j]);
                        assert(names_of(a@.take(i as int)).contains(n));
                    }
                }
                if names_of(a@.take(i as int)).contains(n) {
                    let j = choose|j: int|
                        0 <= j < a@.take(i as int).len() && (#[trigger] a@.take(i as int)[j])@ == n;
                    assert(a@.take(i + 1)[j] == a@[j]);
                }
                assert(a@.take(i + 1)[i as int] == ai);
                if names_of(out@).contains(n) {
                    let j = choose|j: int| 0 <= j < out@.len() && (#[trigger] out@[j])@ == n;
                    if j < before.len() {
                        assert(out@[j] == before[j]);
                        assert(names_of(before).contains(n));
                    }
                }
                if names_of(before).contains(n) {
                    let j = choose|j: int| 0 <= j < before.len() && (#[trigger] before[j])@ == n;
                    assert(out@[j] == before[j]);
                }
                if out@.len() > before.len() {
                    assert(out@[before.len() as int]@ == ai@);
                }
            }
        }
        i = i + 1;
    }
    proof {
        assert(a@.take(a@.len() as int) =~= a@);
        assert(names_of(out@) =~= names_of(a@).difference(names_of(b@)));
    }
    out
}

/// A disagreement between the services fetched and those configured.
pub struct ServiceMismatch {
    /// Configured but not fetched.
    pub missing: Vec<String>,
    /// Fetched but not configured.
    pub extra: Vec<String>,
}

/// Compares the fetched service names with the configured ones.
pub fn compare_services(fetched: &Vec<String>, configured: &Vec<String>) -> (r: Option<
    ServiceMismatch,
>)
    ensures
        r is None <==> names_of(fetched@) == names_of(configured@),
        r matches Some(m) ==> names_of(m.missing@) == names_of(configured@).difference(
            names_of(fetched@),
        ) && names_of(m.extra@) == names_of(fetched@).difference(names_of(configured@)),
{
    let missing = names_missing_from(configured, fetched);
    let extra = names_missing_from(fetched, configured);
    if missing.len() == 0 && extra.len() == 0 {
        proof {
            assert(names_of(missing@) =~= Set::empty());
            assert(names_of(extra@) =~= Set::empty());
            assert forall|n: Seq<char>| names_of(fetched@).contains(n) == names_of(configured@).contains(n) by {
                assert(!names_of(missing@).contains(n));
                assert(!names_of(extra@).contains(n));
            }
            assert(names_of(fetched@) =~= names_of(configured@));
        }
        None
    } else {
        proof {
            if missing.len() > 0 {
                assert(names_of(missing@).contains(missing@[0]@));
                assert(!names_of(fetched@).contains(missing@[0]@));
            } else {
                assert(names_of(extra@).contains(extra@[0]@));
                assert(!names_of(configured@).contains(extra@[0]@));
            }
        }
        Some(ServiceMismatch { missing, extra })
    }
}

/// A team of a service, ordered by address.
pub struct TeamRef {
    pub name: String,
    pub index: usize,
}

impl NaturalKey for TeamRef {
    open spec fn primary_key(&self) -> int {
        0
    }

    open spec fn name_key(&self) -> Seq<char> {
        self.name@
    }

    fn primary(&self) -> (r: i64) {
        0
    }

    fn name(&self) -> (r: &str) {
        self.name.as_str()
    }
}

/// The record `r` comes from service `s` of the map: its team and round are among that
/// service's.
pub open spec fn record_from(m: ServiceMap, r: FlagIdRecord) -> bool {
    exists|s: int, t: int, k: int|
        0 <= s < m.0@.len() && 0 <= t < m.0@[s].1.teams@.len() && 0 <= k
            < m.0@[s].1.teams@[t].1.ticks@.len() && m.0@[s].0@ == r.service@
            && m.0@[s].1.teams@[t].0@ == r.team@ && (#[trigger] m.0@[s].1.teams@[t].1.ticks@[k]).0
            == r.tick
}

/// Some record of `recs` is for this service, team and round.
pub open spec fn covered(recs: Seq<FlagIdRecord>, service: Seq<char>, team: Seq<char>, tick: i32) -> bool {
    exists|j: int|
        0 <= j < recs.len() && (#[trigger] recs[j]).service@ == service && recs[j].team@ == team
            && recs[j].tick == tick
}

/// Every round of every team of every service of the map that has flag ids has a
/// record among `recs`, for services `0..upto`.
pub open spec fn covers_map(m: ServiceMap, recs: Seq<FlagIdRecord>, upto: int) -> bool {
    forall|s: int, t: int, k: int|
        0 <= s < upto && 0 <= t < m.0@[s].1.teams@.len() && 0 <= k
            < m.0@[s].1.teams@[t].1.ticks@.len() && (#[trigger] m.0@[s].1.teams@[t].1.ticks@[k]).1@.len()
            > 0 ==> covered(
            recs,
            m.0@[s].0@,
            m.0@[s].1.teams@[t].0@,
            m.0@[s].1.teams@[t].1.ticks@[k].0,
        )
}

proof fn lemma_covered_push(recs: Seq<FlagIdRecord>, x: FlagIdRecord)
    ensures
        forall|service: Seq<char>, team: Seq<char>, tick: i32|
            #[trigger] covered(recs, service, team, tick) ==> covered(recs.push(x), service, team, tick),
{
    assert forall|service: Seq<char>, team: Seq<char>, tick: i32| #[trigger]
        covered(recs, service, team, tick) implies covered(recs.push(x), service, team, tick) by {
        let j = choose|j: int|
            0 <= j < recs.len() && (#[trigger] recs[j]).service@ == service && recs[j].team@ == team
                && recs[j].tick == tick;
        assert(recs.push(x)[j] == recs[j]);
    }
}

/// Team position `t` is in `order`.
pub open spec fn lists_team(order: Seq<TeamRef>, t: int) -> bool {
    exists|j: int| 0 <= j < order.len() && (#[trigger] order[j]).index == t
}

/// The team positions of a service, with teams in natural address order.
fn teams_in_order(service: &Service) -> (r: Vec<TeamRef>)
    ensures
        forall|j: int|
            0 <= j < r@.len() ==> (#[trigger] r@[j]).index < service.teams@.len()
                && r@[j].name@ == service.teams@[r@[j].index as int].0@,
        forall|t: int| 0 <= t < service.teams@.len() ==> #[trigger] lists_team(r@, t),
{
    broadcast use vstd::seq_lib::group_to_multiset_ensures;

    let mut refs: Vec<TeamRef> = Vec::new();
    let mut i: usize = 0;
    while i < service.teams.len()
        invariant
            i <= service.teams@.len(),
            refs@.len() == i,
            forall|j: int|
                0 <= j < refs@.len() ==> (#[trigger] refs@[j]).index == j
                    && refs@[j].name@ == service.teams@[j].0@,
        decreases service.teams@.len() - i,
    {
        refs.push(TeamRef { name: service.teams[i].0.clone(), index: i });
        i = i + 1;
    }
    let sorted = sort_by_natural_key(refs);
    proof {
        assert forall|j: int| 0 <= j < sorted@.len() implies (#[trigger] sorted@[j]).index
            < service.teams@.len() && sorted@[j].name@ == service.teams@[sorted@[j].index as int].0@ by {
            assert(sorted@.to_multiset().count(sorted@[j]) > 0);
            assert(refs@.contains(sorted@[j]));
        }
        assert forall|t: int| 0 <= t < service.teams@.len() implies #[trigger] lists_team(
            sorted@,
            t,
        ) by {
            assert(refs@.contains(refs@[t]));
            assert(refs@.to_multiset().count(refs@[t]) > 0);
            assert(sorted@.contains(refs@[t]));
        }
    }
    sorted
}

/// Every round of team `ti` of service `s` that has flag ids has a record.
pub open spec fn team_covered(m: ServiceMap, recs: Seq<FlagIdRecord>, s: int, ti: int) -> bool {
    forall|k: int|
        0 <= k < m.0@[s].1.teams@[ti].1.ticks@.len() && (#[trigger] m.0@[s].1.teams@[ti].1.ticks@[k]).1@.len()
            > 0 ==> covered(
            recs,
            m.0@[s].0@,
            m.0@[s].1.teams@[ti].0@,
            m.0@[s].1.teams@[ti].1.ticks@[k].0,
        )
}

/// Every flag id of the map as a record, service by service and, within a service,
/// team by team in natural address order. Also returns how many flag ids the map
/// holds.
pub fn flag_id_records(m: &ServiceMap) -> (r: (Vec<FlagIdRecord>, u64))
    ensures
        forall|j: int| 0 <= j < r.0@.len() ==> record_from(*m, #[trigger] r.0@[j]),
        covers_map(*m, r.0@, m.0@.len() as int),
{
    let mut out: Vec<FlagIdRecord> = Vec::new();
    let mut tried: u64 = 0;
    let mut s: usize = 0;
    while s < m.0.len()
        invariant
            s <= m.0@.len(),
            forall|j: int| 0 <= j < out@.len() ==> record_from(*m, #[trigger] out@[j]),
            covers_map(*m, out@, s as int),
        decreases m.0@.len() - s,
    {
        let (service_name, service) = (&m.0[s].0, &m.0[s].1);
        let order = teams_in_order(service);
        let mut t: usize = 0;
        while t < order.len()
            invariant
                s < m.0@.len(),
                service == m.0@[s as int].1,
                service_name == m.0@[s as int].0,
                t <= order@.len(),
                forall|j: int|
                    0 <= j < order@.len() ==> (#[trigger] order@[j]).index < service.teams@.len()
                        && order@[j].name@ == service.teams@[order@[j].index as int].0@,
                forall|j: int| 0 <= j < out@.len() ==> record_from(*m, #[trigger] out@[j]),
                covers_map(*m, out@, s as int),
                forall|jj: int|
                    0 <= jj < t ==> team_covered(*m, out@, s as int, (#[trigger] order@[jj]).index as int),
            decreases order@.len() - t,
        {
            let ti = order[t].index;
            let (team_ip, team) = (&service.teams[ti].0, &service.teams[ti].1);
            let mut k: usize = 0;
            while k < team.ticks.len()
                invariant
                    s < m.0@.len(),
                    service == m.0@[s as int].1,
                    service_name == m.0@[s as int].0,
                    t < order@.len(),
                    ti == order@[t as int].index,
                    ti < service.teams@.len(),
                    team_ip == service.teams@[ti as int].0,
                    team == service.teams@[ti as int].1,
                    k <= team.ticks@.len(),
                    forall|j: int| 0 <= j < out@.len() ==> record_from(*m, #[trigger] out@[j]),
                    covers_map(*m, out@, s as int),
                    forall|jj: int|
                        0 <= jj < t ==> team_covered(*m, out@, s as int, (#[trigger] order@[jj]).index as int),
                    forall|kk: int|
                        0 <= kk < k && (#[trigger] team.ticks@[kk]).1@.len() > 0 ==> covered(
                            out@,
                            service_name@,
                            team_ip@,
                            team.ticks@[kk].0,
                        ),
                decreases team.ticks@.len() - k,
            {
                let tick = team.ticks[k].0;
                let flag_ids = &team.ticks[k].1;
                let mut f: usize = 0;
                while f < flag_ids.len()
                    invariant
                        s < m.0@.len(),
                        service == m.0@[s as int].1,
                        service_name == m.0@[s as int].0,
                        t < order@.len(),
                        ti == order@[t as int].index,
                        ti < service.teams@.len(),
                        team_ip == service.teams@[ti as int].0,
                        team == service.teams@[ti as int].1,
                        k < team.ticks@.len(),
                        tick == team.ticks@[k as int].0,
                        flag_ids == team.ticks@[k as int].1,
                        forall|j: int| 0 <= j < out@.len() ==> record_from(*m, #[trigger] out@[j]),
                        covers_map(*m, out@, s as int),
                        forall|jj: int|
                            0 <= jj < t ==> team_covered(
                                *m,
                                out@,
                                s as int,
                                (#[trigger] order@[jj]).index as int,
                            ),
                        forall|kk: int|
                            0 <= kk < k && (#[trigger] team.ticks@[kk]).1@.len() > 0 ==> covered(
                                out@,
                                service_name@,
                                team_ip@,
                                team.ticks@[kk].0,
                            ),
                        f > 0 ==> covered(out@, service_name@, team_ip@, tick),
                    decreases flag_ids@.len() - f,
                {
                    tried = tried.saturating_add(1);
                    match flag_id_text(&flag_ids[f]) {
                        Ok(text) => {
                            let rec = FlagIdRecord {
                                service: service_name.clone(),
                                team: team_ip.clone(),
                                tick,
                                flag_id: text,
                            };
                            assert(record_from(*m, rec)) by {
                                assert(m.0@[s as int].1.teams@[ti as int].1.ticks@[k as int].0 == tick);
                            }
                            let ghost before = out@;
                            out.push(rec);
                            proof {
                                lemma_covered_push(before, rec);
                                assert(out@ == before.push(rec));
                                assert(out@[before.len() as int] == rec);
                            }
                        },
                        Err(_) => {},
                    }
                    f = f + 1;
                }
                k = k + 1;
            }
            proof {
                assert(team_covered(*m, out@, s as int, ti as int));
            }
            t = t + 1;
        }
        proof {
            assert forall|ss: int, tt: int, kk: int|
                0 <= ss < s + 1 && 0 <= tt < m.0@[ss].1.teams@.len() && 0 <= kk
                    < m.0@[ss].1.teams@[tt].1.ticks@.len() && (#[trigger] m.0@[ss].1.teams@[tt].1.ticks@[kk]).1@.len()
                    > 0 implies covered(
                out@,
                m.0@[ss].0@,
                m.0@[ss].1.teams@[tt].0@,
                m.0@[ss].1.teams@[tt].1.ticks@[kk].0,
            ) by {
                if ss == s {
                    assert(lists_team(order@, tt));
                    let jj = choose|jj: int| 0 <= jj < order@.len() && (#[trigger] order@[jj]).index == tt;
                    assert(team_covered(*m, out@, s as int, order@[jj].index as int));
                }
            }
        }
        s = s + 1;
    }
    (out, tried)
}

/// A target row in plain values: service, team, flag id, creation time and round.
pub open spec fn inserter_view(t: TargetInserter) -> (Seq<char>, Seq<char>, Seq<char>, i64, i32) {
    (t.service@, t.team@, t.flag_id@, t.created_at, t.target_tick)
}

/// One target with an empty flag id for every service without flag ids and every team,
/// service by service.
pub open spec fn no_flag_id_rows(services: Seq<String>, ips: Seq<String>, tick: i32, now: i64) -> Seq<
    (Seq<char>, Seq<char>, Seq<char>, i64, i32),
>
    decreases services.len(),
{
    if services.len() == 0 {
        Seq::empty()
    } else {
        no_flag_id_rows(services.drop_last(), ips, tick, now) + ips.map_values(
            |ip: String| (services.last()@, ip@, Seq::<char>::empty(), now, tick),
        )
    }
}

/// The target rows of flag id records created at `now`.
pub open spec fn record_rows(recs: Seq<FlagIdRecord>, now: i64) -> Seq<
    (Seq<char>, Seq<char>, Seq<char>, i64, i32),
> {
    recs.map_values(|r: FlagIdRecord| (r.service@, r.team@, r.flag_id@, now, r.tick))
}

/// The targets of the services without flag ids for this round.
pub fn targets_without_flag_id(services: &Vec<String>, ips: &Vec<String>, tick: i32, now: i64) -> (r:
    Vec<TargetInserter>)
    ensures
        r@.map_values(|t: TargetInserter| inserter_view(t)) == no_flag_id_rows(
            services@,
            ips@,
            tick,
            now,
        ),
{
    let mut out: Vec<TargetInserter> = Vec::new();
    let mut s: usize = 0;
    while s < services.len()
        invariant
            s <= services@.len(),
            out@.map_values(|t: TargetInserter| inserter_view(t)) == no_flag_id_rows(
                services@.take(s as int),
                ips@,
                tick,
                now,
            ),
        decreases services@.len() - s,
    {
        let ghost base = out@.map_values(|t: TargetInserter| inserter_view(t));
        let ghost name = services@[s as int]@;
        let mut i: usize = 0;
        while i < ips.len()
            invariant
                s < services@.len(),
                name == services@[s as int]@,
                i <= ips@.len(),
                out@.map_values(|t: TargetInserter| inserter_view(t)) == base + ips@.take(
                    i as int,
                ).map_values(|ip: String| (name, ip@, Seq::<char>::empty(), now, tick)),
            decreases ips@.len() - i,
        {
            let t = TargetInserter {
                flag_id: String::new(),
                service: services[s].clone(),
                team: ips[i].clone(),
                created_at: now,
                target_tick: tick,
            };
            let ghost before = out@;
            out.push(t);
            i = i + 1;
            proof {
                assert(out@.map_values(|t: TargetInserter| inserter_view(t)) =~= before.map_values(
                    |t: TargetInserter| inserter_view(t),
                ).push(inserter_view(t)));
                assert(ips@.take(i as int).map_values(
                    |ip: String| (name, ip@, Seq::<char>::empty(), now, tick),
                ) =~= ips@.take(i - 1).map_values(
                    |ip: String| (name, ip@, Seq::<char>::empty(), now, tick),
                ).push((name, ips@[i - 1]@, Seq::<char>::empty(), now, tick)));
            }
        }
        proof {
            assert(ips@.take(ips@.len() as int) =~= ips@);
            assert(services@.take(s + 1).drop_last() =~= services@.take(s as int));
        }
        s = s + 1;
    }
    proof {
        assert(services@.take(services@.len() as int) =~= services@);
    }
    out
}

/// The target rows of the given records, created at `now`.
pub fn record_targets(recs: Vec<FlagIdRecord>, now: i64) -> (r: Vec<TargetInserter>)
    ensures
        r@.map_values(|t: TargetInserter| inserter_view(t)) == record_rows(recs@, now),
{
    let mut out: Vec<TargetInserter> = Vec::new();
    for rec in it: recs.into_iter()
        invariant
            it.seq() == recs@,
            out@.map_values(|t: TargetInserter| inserter_view(t)) == record_rows(
                it.seq().take(it.index() as int),
                now,
            ),
    {
        let ghost before = out@;
        let ghost done = it.seq().take(it.index() as int);
        let t = TargetInserter {
            flag_id: rec.flag_id,
            service: rec.service,
            team: rec.team,
            created_at: now,
            target_tick: rec.tick,
        };
        out.push(t);
        proof {
            assert(it.seq().take(it.index() + 1) =~= done.push(rec));
            assert(out@.map_values(|t: TargetInserter| inserter_view(t)) =~= before.map_values(
                |t: TargetInserter| inserter_view(t),
            ).push(inserter_view(t)));
            assert(record_rows(done.push(rec), now) =~= record_rows(done, now).push(
                inserter_view(t),
            ));
        }
    }
    proof {
        assert(recs@.take(recs@.len() as int) =~= recs@);
    }
    out
}

/// The service names of a map after the renames of `mapping`.
pub open spec fn renamed_names(m: ServiceMap, mapping: Seq<(String, String)>) -> Set<Seq<char>> {
    Set::new(
        |n: Seq<char>|
            exists|i: int| 0 <= i < m.0@.len() && renamed(mapping, (#[trigger] m.0@[i]).0@) == n,
    )
}

/// Every round of every team of every service that has flag ids has a record, under
/// the service's renamed name.
pub open spec fn covers_renamed(
    m: ServiceMap,
    mapping: Seq<(String, String)>,
    recs: Seq<FlagIdRecord>,
) -> bool {
    forall|s: int, t: int, k: int|
        0 <= s < m.0@.len() && 0 <= t < m.0@[s].1.teams@.len() && 0 <= k
            < m.0@[s].1.teams@[t].1.ticks@.len() && (#[trigger] m.0@[s].1.teams@[t].1.ticks@[k]).1@.len()
            > 0 ==> covered(
            recs,
            renamed(mapping, m.0@[s].0@),
            m.0@[s].1.teams@[t].0@,
            m.0@[s].1.teams@[t].1.ticks@[k].0,
        )
}

/// What one round of the fetcher does.
pub enum RoundPlan {
    /// The game server and the configuration disagree on the services: nothing is
    /// stored this round.
    Skip(ServiceMismatch),
    /// Insert these targets. `tried` counts the flag ids fetched, `skipped` those
    /// already seen.
    Insert { targets: Vec<TargetInserter>, tried: u64, skipped: u64 },
}

/// Plans one round from the fetched flag ids and team addresses: renames the services,
/// skips the round if the renamed services differ from the configured ones, and
/// otherwise returns a target per service without flag ids and team, followed by a
/// target per flag id not seen before in this process (which is remembered from now
/// on).
pub fn plan_round(
    seen: &mut SeenFlagIds,
    common: &Common,
    services: ServiceMap,
    ips: &Vec<String>,
    tick: i32,
    now: i64,
) -> (r: RoundPlan)
    ensures
        r is Skip <==> renamed_names(services, mapping_of(common.rename)) != common.flagid_names(),
        r matches RoundPlan::Skip(m) ==> {
            &&& names_of(m.missing@) == common.flagid_names().difference(
                renamed_names(services, mapping_of(common.rename)),
            )
            &&& names_of(m.extra@) == renamed_names(services, mapping_of(common.rename)).difference(
                common.flagid_names(),
            )
            &&& final(seen)@ == old(seen)@
        },
        r matches RoundPlan::Insert { targets, tried, skipped } ==> exists|recs: Seq<FlagIdRecord>|
            {
                &&& forall|j: int|
                    0 <= j < recs.len() ==> exists|s: int|
                        0 <= s < services.0@.len() && renamed(
                            mapping_of(common.rename),
                            (#[trigger] services.0@[s]).0@,
                        ) == (#[trigger] recs[j]).service@
                &&& covers_renamed(services, mapping_of(common.rename), recs)
                &&& targets@.map_values(|t: TargetInserter| inserter_view(t)) == no_flag_id_rows(
                    common.services_without_flagid@,
                    ips@,
                    tick,
                    now,
                ) + record_rows(fresh_records(old(seen)@, recs), now)
                &&& final(seen)@ == seen_after(old(seen)@, recs)
                &&& skipped == recs.len() - fresh_records(old(seen)@, recs).len()
            },
{
    let empty: Vec<(String, String)> = Vec::new();
    let mapping = match &common.rename {
        Some(m) => m,
        None => &empty,
    };
    assert(mapping@ == mapping_of(common.rename));
    let ghost fetched_map = services;
    let services = services.apply_name_mapping(mapping);
    let fetched = services.service_names();
    let configured = common.flagid_services_with_renames();
    proof {
        assert forall|n: Seq<char>| map_names(services).contains(n) == renamed_names(
            fetched_map,
            mapping@,
        ).contains(n) by {
            if map_names(services).contains(n) {
                let i = choose|i: int| 0 <= i < services.0@.len() && (#[trigger] services.0@[i]).0@ == n;
                assert(renamed(mapping@, fetched_map.0@[i].0@) == n);
            }
            if renamed_names(fetched_map, mapping@).contains(n) {
                let i = choose|i: int|
                    0 <= i < fetched_map.0@.len() && renamed(mapping@, (#[trigger] fetched_map.0@[i]).0@) == n;
                assert(services.0@[i].0@ == n);
            }
        }
        assert(map_names(services) =~= renamed_names(fetched_map, mapping@));
    }
    match compare_services(&fetched, &configured) {
        Some(mismatch) => {
            return RoundPlan::Skip(mismatch);
        },
        None => {},
    }
    let mut targets = targets_without_flag_id(&common.services_without_flagid, ips, tick, now);
    let (records, tried) = flag_id_records(&services);
    let ghost recs = records@;
    let n_records = records.len();
    let fresh = seen.insert_new(records);
    proof {
        crate::seen::lemma_fresh_records_len(old(seen)@, recs);
    }
    let skipped = (n_records - fresh.len()) as u64;
    let mut rows = record_targets(fresh, now);
    let ghost first = targets@;
    targets.append(&mut rows);
    proof {
        assert(targets@.map_values(|t: TargetInserter| inserter_view(t)) =~= first.map_values(
            |t: TargetInserter| inserter_view(t),
        ) + record_rows(fresh_records(old(seen)@, recs), now));
        assert forall|j: int| 0 <= j < recs.len() implies exists|s: int|
            0 <= s < fetched_map.0@.len() && renamed(
                mapping_of(common.rename),
                (#[trigger] fetched_map.0@[s]).0@,
            ) == (#[trigger] recs[j]).service@ by {
            assert(record_from(services, recs[j]));
            let s = choose|s: int, t: int, k: int|
                0 <= s < services.0@.len() && 0 <= t < services.0@[s].1.teams@.len() && 0 <= k
                    < services.0@[s].1.teams@[t].1.ticks@.len() && services.0@[s].0@
                    == recs[j].service@ && services.0@[s].1.teams@[t].0@ == recs[j].team@ && (
                #[trigger] services.0@[s].1.teams@[t].1.ticks@[k]).0 == recs[j].tick;
            assert(renamed(mapping_of(common.rename), fetched_map.0@[s.0].0@) == recs[j].service@);
        }
        assert forall|s: int, t: int, k: int|
            0 <= s < fetched_map.0@.len() && 0 <= t < fetched_map.0@[s].1.teams@.len() && 0 <= k
                < fetched_map.0@[s].1.teams@[t].1.ticks@.len() && (
            #[trigger] fetched_map.0@[s].1.teams@[t].1.ticks@[k]).1@.len() > 0 implies covered(
            recs,
            renamed(mapping_of(common.rename), fetched_map.0@[s].0@),
            fetched_map.0@[s].1.teams@[t].0@,
            fetched_map.0@[s].1.teams@[t].1.ticks@[k].0,
        ) by {
            assert(services.0@[s].1 == fetched_map.0@[s].1);
            assert(services.0@[s].1.teams@[t].1.ticks@[k] == fetched_map.0@[s].1.teams@[t].1.ticks@[k]);
        }
    }
    RoundPlan::Insert { targets, tried, skipped }
}

/// How long one request for the flag ids may take, in milliseconds.
pub const ATTEMPT_TIMEOUT_MS: u64 = 5000;

/// The pause after a failed request, in milliseconds.
pub const RETRY_PAUSE_MS: u64 = 1000;

/// How long a round may spend fetching flag ids, in milliseconds: half a round, in
/// whole seconds.
pub open spec fn fetch_deadline_ms(tick: int) -> int {
    (tick / 2) * 1000
}

/// The next thing the fetcher does while it waits for the flag ids of a round.
#[derive(Debug, Clone, Copy, PartialEq, Eq, Structural)]
pub enum FetchStep {
    /// Ask the game server, waiting at most this long.
    Attempt { timeout_ms: u64 },
    /// Wait this long before asking again.
    Pause { ms: u64 },
    /// Give the round up; nothing is stored for it.
    GiveUp,
}

/// Decides the next step `elapsed_ms` into a round's fetch, after a failed request or
/// not. No request outlives the deadline, so an answer slower than half a round is
/// never used and the round is given up.
pub fn next_fetch_step(tick: u64, elapsed_ms: u64, after_failure: bool) -> (r: FetchStep)
    ensures
        elapsed_ms >= fetch_deadline_ms(tick as int) ==> r == FetchStep::GiveUp,
        elapsed_ms < fetch_deadline_ms(tick as int) && after_failure ==> r == (FetchStep::Pause {
            ms: if fetch_deadline_ms(tick as int) - elapsed_ms < RETRY_PAUSE_MS {
                (fetch_deadline_ms(tick as int) - elapsed_ms) as u64
            } else {
                RETRY_PAUSE_MS
            },
        }),
        elapsed_ms < fetch_deadline_ms(tick as int) && !after_failure ==> r == (FetchStep::Attempt {
            timeout_ms: if fetch_deadline_ms(tick as int) - elapsed_ms < ATTEMPT_TIMEOUT_MS {
                (fetch_deadline_ms(tick as int) - elapsed_ms) as u64
            } else {
                ATTEMPT_TIMEOUT_MS
            },
        }),
        r matches FetchStep::Attempt { timeout_ms } ==> elapsed_ms + timeout_ms <= fetch_deadline_ms(
            tick as int,
        ),
{
    let deadline: u128 = (tick / 2) as u128 * 1000;
    if elapsed_ms as u128 >= deadline {
        return FetchStep::GiveUp;
    }
    let left: u128 = deadline - elapsed_ms as u128;
    if after_failure {
        FetchStep::Pause {
            ms: if left < RETRY_PAUSE_MS as u128 {
                left as u64
            } else {
                RETRY_PAUSE_MS
            },
        }
    } else {
        FetchStep::Attempt {
            timeout_ms: if left < ATTEMPT_TIMEOUT_MS as u128 {
                left as u64
            } else {
                ATTEMPT_TIMEOUT_MS
            },
        }
    }
}

/// `host` is configured and is `ip`.
pub open spec fn is_host(host: Option<String>, ip: Seq<char>) -> bool {
    match host {
        Some(h) => h@ == ip,
        None => false,
    }
}

/// The name a team gets when it is first stored: `"nop"` for the non-competing host,
/// `"own"` for our own host, none otherwise.
pub fn default_team_name(ip: &String, nop: &Option<String>, own: &Option<String>) -> (r: Option<
    String,
>)
    ensures
        is_host(*nop, ip@) ==> (r matches Some(s) && s@ == "nop"@),
        !is_host(*nop, ip@) && is_host(*own, ip@) ==> (r matches Some(s) && s@ == "own"@),
        !is_host(*nop, ip@) && !is_host(*own, ip@) ==> r is None,
{
    let is_nop = match nop {
        Some(n) => *n == *ip,
        None => false,
    };
    let is_own = match own {
        Some(o) => *o == *ip,
        None => false,
    };
    if is_nop {
        Some(String::from_str("nop"))
    } else if is_own {
        Some(String::from_str("own"))
    } else {
        None
    }
}

} // verus!
