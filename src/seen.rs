//! The process-local set of flag ids already turned into targets.
use vstd::prelude::*;

verus! {

/// One flag id of one team's service, with the round it belongs to.
pub struct FlagIdRecord {
    pub service: String,
    pub team: String,
    pub tick: i32,
    /// The flag id as compact JSON text.
    pub flag_id: String,
}

/// What a record is de-duplicated by: service, team and flag id, not the round.
pub open spec fn record_key(r: FlagIdRecord) -> (Seq<char>, Seq<char>, Seq<char>) {
    (r.service@, r.team@, r.flag_id@)
}

/// The seen-set after taking in `recs` in order.
pub open spec fn seen_after(seen: Set<(Seq<char>, Seq<char>, Seq<char>)>, recs: Seq<FlagIdRecord>) -> Set<
    (Seq<char>, Seq<char>, Seq<char>),
>
    decreases recs.len(),
{
    if recs.len() == 0 {
        seen
    } else {
        seen_after(seen, recs.drop_last()).insert(record_key(recs.last()))
    }
}

/// The records of `recs` whose key is neither in `seen` nor in an earlier record.
pub open spec fn fresh_records(
    seen: Set<(Seq<char>, Seq<char>, Seq<char>)>,
    recs: Seq<FlagIdRecord>,
) -> Seq<FlagIdRecord>
    decreases recs.len(),
{
    if recs.len() == 0 {
        Seq::empty()
    } else {
        let prev = fresh_records(seen, recs.drop_last());
        if seen_after(seen, recs.drop_last()).contains(record_key(recs.last())) {
            prev
        } else {
            prev.push(recs.last())
        }
    }
}

/// The `(service, team, flag id)` triples seen by this process.
pub struct SeenFlagIds {
    pub keys: Vec<(String, String, String)>,
}

impl View for SeenFlagIds {
    type V = Set<(Seq<char>, Seq<char>, Seq<char>)>;

    open spec fn view(&self) -> Set<(Seq<char>, Seq<char>, Seq<char>)> {
        Set::new(
            |k: (Seq<char>, Seq<char>, Seq<char>)|
                exists|i: int|
                    0 <= i < self.keys@.len() && ((#[trigger] self.keys@[i]).0@, self.keys@[i].1@,
                    self.keys@[i].2@) == k,
        )
    }
}

impl SeenFlagIds {
    pub fn new() -> (r: SeenFlagIds)
        ensures
            r@ == Set::<(Seq<char>, Seq<char>, Seq<char>)>::empty(),
    {
        let r = SeenFlagIds { keys: Vec::new() };
        assert(r@ =~= Set::<(Seq<char>, Seq<char>, Seq<char>)>::empty());
        r
    }

    /// Whether the record's key has been seen.
    pub fn contains(&self, rec: &FlagIdRecord) -> (r: bool)
        ensures
            r == self@.contains(record_key(*rec)),
    {
        let mut i: usize = 0;
        while i < self.keys.len()
            invariant
                i <= self.keys@.len(),
                forall|j: int|
                    0 <= j < i ==> ((#[trigger] self.keys@[j]).0@, self.keys@[j].1@,
                    self.keys@[j].2@) != record_key(*rec),
            decreases self.keys@.len() - i,
        {
            let k = &self.keys[i];
            if k.0 == rec.service && k.1 == rec.team && k.2 == rec.flag_id {
                assert(self@.contains(record_key(*rec)));
                return true;
            }
            i = i + 1;
        }
        false
    }

    /// Takes `records` in order and returns those whose key was new; each key is
    /// remembered from then on.
    pub fn insert_new(&mut self, records: Vec<FlagIdRecord>) -> (r: Vec<FlagIdRecord>)
        ensures
            r@ == fresh_records(old(self)@, records@),
            final(self)@ == seen_after(old(self)@, records@),
    {
        let ghost start = self@;
        let mut out: Vec<FlagIdRecord> = Vec::new();
        for rec in it: records.into_iter()
            invariant
                it.seq() == records@,
                self@ == seen_after(start, it.seq().take(it.index() as int)),
                out@ == fresh_records(start, it.seq().take(it.index() as int)),
        {
            let ghost done = it.seq().take(it.index() as int);
            let ghost next = it.seq().take(it.index() + 1);
            proof {
                assert(next.drop_last() =~= done);
                assert(next.last() == rec);
            }
            if !self.contains(&rec) {
                let ghost before = self@;
                let ghost old_keys = self.keys@;
                self.keys.push((rec.service.clone(), rec.team.clone(), rec.flag_id.clone()));
                proof {
                    let n = old_keys.len() as int;
                    assert(self.keys@ == old_keys.push(self.keys@[n]));
                    assert forall|k: (Seq<char>, Seq<char>, Seq<char>)| #[trigger]
                        self@.contains(k) == before.insert(record_key(rec)).contains(k) by {
                        if before.contains(k) {
                            let i = choose|i: int|
                                0 <= i < old_keys.len() && ((#[trigger] old_keys[i]).0@,
                                old_keys[i].1@, old_keys[i].2@) == k;
                            assert(self.keys@[i] == old_keys[i]);
                        }
                        if k == record_key(rec) {
                            assert(self.keys@[n].0@ == rec.service@);
                        }
                        if self@.contains(k) && k != record_key(rec) {
                            let i = choose|i: int|
                                0 <= i < self.keys@.len() && ((#[trigger] self.keys@[i]).0@,
                                self.keys@[i].1@, self.keys@[i].2@) == k;
                            assert(i < n);
                            assert(old_keys[i] == self.keys@[i]);
                        }
                    }
                    assert(self@ =~= before.insert(record_key(rec)));
                }
                out.push(rec);
            } else {
                proof {
                    assert(self@.insert(record_key(rec)) =~= self@);
                }
            }
        }
        proof {
            assert(records@.take(records@.len() as int) =~= records@);
        }
        out
    }
}

/// No more records are fresh than were offered.
pub proof fn lemma_fresh_records_len(seen: Set<(Seq<char>, Seq<char>, Seq<char>)>, recs: Seq<FlagIdRecord>)
    ensures
        fresh_records(seen, recs).len() <= recs.len(),
    decreases recs.len(),
{
    if recs.len() > 0 {
        lemma_fresh_records_len(seen, recs.drop_last());
    }
}

/// Taking in records never forgets a key, and remembers every key taken in.
pub proof fn lemma_seen_after_grows(seen: Set<(Seq<char>, Seq<char>, Seq<char>)>, recs: Seq<FlagIdRecord>)
    ensures
        seen.subset_of(seen_after(seen, recs)),
        forall|i: int| 0 <= i < recs.len() ==> seen_after(seen, recs).contains(record_key(#[trigger] recs[i])),
    decreases recs.len(),
{
    if recs.len() > 0 {
        lemma_seen_after_grows(seen, recs.drop_last());
        assert forall|i: int| 0 <= i < recs.len() implies seen_after(seen, recs).contains(
            record_key(#[trigger] recs[i]),
        ) by {
            if i < recs.len() - 1 {
                assert(recs.drop_last()[i] == recs[i]);
            }
        }
    }
}

/// Within one pass the fresh records have pairwise different keys, none of them
/// seen before, and all of them remembered afterwards.
pub proof fn lemma_fresh_records_are_new(seen: Set<(Seq<char>, Seq<char>, Seq<char>)>, recs: Seq<FlagIdRecord>)
    ensures
        forall|i: int|
            0 <= i < fresh_records(seen, recs).len() ==> !seen.contains(
                record_key(#[trigger] fresh_records(seen, recs)[i]),
            ) && seen_after(seen, recs).contains(record_key(fresh_records(seen, recs)[i])),
        forall|i: int, j: int|
            0 <= i < j < fresh_records(seen, recs).len() ==> record_key(
                #[trigger] fresh_records(seen, recs)[i],
            ) != record_key(#[trigger] fresh_records(seen, recs)[j]),
    decreases recs.len(),
{
    if recs.len() > 0 {
        let prev = recs.drop_last();
        lemma_fresh_records_are_new(seen, prev);
        lemma_seen_after_grows(seen, prev);
        let f = fresh_records(seen, recs);
        let fp = fresh_records(seen, prev);
        assert forall|i: int| 0 <= i < f.len() implies !seen.contains(record_key(#[trigger] f[i]))
            && seen_after(seen, recs).contains(record_key(f[i])) by {
            if i < fp.len() {
                assert(f[i] == fp[i]);
            }
        }
        assert forall|i: int, j: int| 0 <= i < j < f.len() implies record_key(#[trigger] f[i])
            != record_key(#[trigger] f[j]) by {
            if j < fp.len() {
                assert(f[i] == fp[i] && f[j] == fp[j]);
            } else {
                assert(f[i] == fp[i]);
                assert(seen_after(seen, prev).contains(record_key(fp[i])));
            }
        }
    }
}

/// One run of the process never makes two targets for the same `(service, team, flag
/// id)`: the records fresh in a later pass share no key with those of an earlier
/// one, and within one pass no two fresh records share a key.
pub proof fn lemma_no_repeated_targets(
    seen: Set<(Seq<char>, Seq<char>, Seq<char>)>,
    first: Seq<FlagIdRecord>,
    second: Seq<FlagIdRecord>,
)
    ensures
        forall|i: int, j: int|
            0 <= i < fresh_records(seen, first).len() && 0 <= j < fresh_records(
                seen_after(seen, first),
                second,
            ).len() ==> record_key(#[trigger] fresh_records(seen, first)[i]) != record_key(
                #[trigger] fresh_records(seen_after(seen, first), second)[j],
            ),
        forall|i: int, j: int|
            0 <= i < j < fresh_records(seen, first).len() ==> record_key(
                #[trigger] fresh_records(seen, first)[i],
            ) != record_key(#[trigger] fresh_records(seen, first)[j]),
{
    lemma_fresh_records_are_new(seen, first);
    lemma_fresh_records_are_new(seen_after(seen, first), second);
}

/// With every key already seen, taking in records adds nothing.
proof fn lemma_all_seen_adds_nothing(seen: Set<(Seq<char>, Seq<char>, Seq<char>)>, recs: Seq<FlagIdRecord>)
    requires
        forall|i: int| 0 <= i < recs.len() ==> seen.contains(record_key(#[trigger] recs[i])),
    ensures
        fresh_records(seen, recs) == Seq::<FlagIdRecord>::empty(),
        seen_after(seen, recs) == seen,
    decreases recs.len(),
{
    if recs.len() > 0 {
        let prev = recs.drop_last();
        assert forall|i: int| 0 <= i < prev.len() implies seen.contains(record_key(#[trigger] prev[i])) by {
            assert(prev[i] == recs[i]);
        }
        lemma_all_seen_adds_nothing(seen, prev);
        assert(seen.contains(record_key(recs[recs.len() - 1])));
        assert(seen.insert(record_key(recs.last())) =~= seen);
    }
}

/// Feeding the same flag ids again yields no new record.
pub proof fn lemma_refeed_adds_nothing(seen: Set<(Seq<char>, Seq<char>, Seq<char>)>, recs: Seq<FlagIdRecord>)
    ensures
        fresh_records(seen_after(seen, recs), recs) == Seq::<FlagIdRecord>::empty(),
        seen_after(seen_after(seen, recs), recs) == seen_after(seen, recs),
{
    lemma_seen_after_grows(seen, recs);
    lemma_all_seen_adds_nothing(seen_after(seen, recs), recs);
}

} // verus!
