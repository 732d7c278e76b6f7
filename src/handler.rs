//! The submission handler's firing: which unsubmitted flags to hand to the scoring
//! server, and in which batches.
use crate::submitter::{code_of, FlagStatus};
use crate::types::Flag;
use vstd::prelude::*;

verus! {

/// The most flags sent to the scoring server in one batch.
pub const CHUNK_SIZE: usize = 150;

/// The texts handed off after taking in `flags` in order.
pub open spec fn handed_after(handed: Set<Seq<char>>, flags: Seq<Flag>) -> Set<Seq<char>>
    decreases flags.len(),
{
    if flags.len() == 0 {
        handed
    } else {
        handed_after(handed, flags.drop_last()).insert(flags.last().text@)
    }
}

/// The flags of `flags` whose text is neither handed off already nor the text of an
/// earlier flag.
pub open spec fn to_hand_off(handed: Set<Seq<char>>, flags: Seq<Flag>) -> Seq<Flag>
    decreases flags.len(),
{
    if flags.len() == 0 {
        Seq::empty()
    } else {
        let prev = to_hand_off(handed, flags.drop_last());
        if handed_after(handed, flags.drop_last()).contains(flags.last().text@) {
            prev
        } else {
            prev.push(flags.last())
        }
    }
}

/// The concatenation of the batches.
pub open spec fn joined(chunks: Seq<Seq<String>>) -> Seq<String>
    decreases chunks.len(),
{
    if chunks.len() == 0 {
        Seq::empty()
    } else {
        joined(chunks.drop_last()) + chunks.last()
    }
}

/// Batches of exactly `size` items but for the last, which holds from one to `size`.
pub open spec fn well_chunked(chunks: Seq<Seq<String>>, size: int) -> bool {
    &&& forall|i: int| 0 <= i < chunks.len() - 1 ==> (#[trigger] chunks[i]).len() == size
    &&& chunks.len() > 0 ==> 1 <= chunks.last().len() <= size
}

/// Splits `items` into batches of `size`, in order.
pub fn chunk(items: Vec<String>, size: usize) -> (r: Vec<Vec<String>>)
    requires
        size >= 1,
    ensures
        joined(r@.map_values(|c: Vec<String>| c@)) == items@,
        well_chunked(r@.map_values(|c: Vec<String>| c@), size as int),
{
    let mut out: Vec<Vec<String>> = Vec::new();
    let mut cur: Vec<String> = Vec::new();
    for item in it: items.into_iter()
        invariant
            size >= 1,
            it.seq() == items@,
            joined(out@.map_values(|c: Vec<String>| c@)) + cur@ == it.seq().take(it.index() as int),
            forall|i: int| 0 <= i < out@.len() ==> (#[trigger] out@[i])@.len() == size,
            cur@.len() < size,
    {
        let ghost before = joined(out@.map_values(|c: Vec<String>| c@)) + cur@;
        cur.push(item);
        proof {
            assert(it.seq().take(it.index() + 1) =~= before.push(item));
            assert(joined(out@.map_values(|c: Vec<String>| c@)) + cur@ =~= before.push(item));
        }
        if cur.len() == size {
            let ghost done = out@.map_values(|c: Vec<String>| c@);
            let mut full: Vec<String> = Vec::new();
            std::mem::swap(&mut full, &mut cur);
            out.push(full);
            proof {
                let now = out@.map_values(|c: Vec<String>| c@);
                assert(now.drop_last() =~= done);
                assert(now.last() == full@);
                assert(joined(now) + cur@ =~= joined(done) + full@);
            }
        }
    }
    let ghost done = out@.map_values(|c: Vec<String>| c@);
    if cur.len() > 0 {
        out.push(cur);
        proof {
            let now = out@.map_values(|c: Vec<String>| c@);
            assert(now.drop_last() =~= done);
        }
    } else {
        proof {
            assert(joined(done) + cur@ =~= joined(done));
        }
    }
    proof {
        assert(items@.take(items@.len() as int) =~= items@);
        let now = out@.map_values(|c: Vec<String>| c@);
        assert forall|i: int| 0 <= i < now.len() - 1 implies (#[trigger] now[i]).len() == size by {
            assert(now[i] == out@[i]@);
        }
    }
    out
}

/// Each item followed by a newline.
pub open spec fn join_lines(items: Seq<String>) -> Seq<char>
    decreases items.len(),
{
    if items.len() == 0 {
        Seq::empty()
    } else {
        join_lines(items.drop_last()) + items.last()@ + seq!['\n']
    }
}

/// Each item followed by a newline, as one string.
pub fn lines_of(items: &Vec<String>) -> (r: String)
    ensures
        r@ == join_lines(items@),
{
    let mut out = String::new();
    let mut i: usize = 0;
    while i < items.len()
        invariant
            i <= items@.len(),
            out@ == join_lines(items@.take(i as int)),
        decreases items@.len() - i,
    {
        proof {
            assert(items@.take(i + 1).drop_last() =~= items@.take(i as int));
        }
        out.append(items[i].as_str());
        crate::text::push_char(&mut out, '\n');
        i = i + 1;
        proof {
            assert(out@ =~= join_lines(items@.take(i as int)));
        }
    }
    proof {
        assert(items@.take(items@.len() as int) =~= items@);
    }
    out
}

/// The texts of flags handed off by this process.
pub struct HandedOff {
    pub texts: Vec<String>,
}

impl View for HandedOff {
    type V = Set<Seq<char>>;

    open spec fn view(&self) -> Set<Seq<char>> {
        Set::new(|t: Seq<char>| exists|i: int| 0 <= i < self.texts@.len() && (#[trigger] self.texts@[i])@ == t)
    }
}

/// What one firing of the handler does: mark these flags as submitted before sending,
/// then send these batches.
pub struct SubmissionPlan {
    pub mark_submitted: Vec<i32>,
    pub chunks: Vec<Vec<String>>,
}

impl HandedOff {
    pub fn new() -> (r: HandedOff)
        ensures
            r@ == Set::<Seq<char>>::empty(),
    {
        let r = HandedOff { texts: Vec::new() };
        assert(r@ =~= Set::<Seq<char>>::empty());
        r
    }

    /// Whether `text` has been handed off.
    pub fn contains(&self, text: &String) -> (r: bool)
        ensures
            r == self@.contains(text@),
    {
        let mut i: usize = 0;
        while i < self.texts.len()
            invariant
                i <= self.texts@.len(),
                forall|j: int| 0 <= j < i ==> (#[trigger] self.texts@[j])@ != text@,
            decreases self.texts@.len() - i,
        {
            if self.texts[i] == *text {
                return true;
            }
            i = i + 1;
        }
        false
    }

    /// Plans one firing over the unsubmitted flags: those whose text was not handed
    /// off before are marked submitted and sent in batches of at most [`CHUNK_SIZE`],
    /// in order; their texts count as handed off from now on.
    pub fn plan_submission(&mut self, flags: &Vec<Flag>) -> (r: SubmissionPlan)
        ensures
            r.mark_submitted@ == to_hand_off(old(self)@, flags@).map_values(|f: Flag| f.id),
            joined(r.chunks@.map_values(|c: Vec<String>| c@)) == to_hand_off(
                old(self)@,
                flags@,
            ).map_values(|f: Flag| f.text),
            well_chunked(r.chunks@.map_values(|c: Vec<String>| c@), CHUNK_SIZE as int),
            final(self)@ == handed_after(old(self)@, flags@),
    {
        let ghost start = self@;
        let mut ids: Vec<i32> = Vec::new();
        let mut texts: Vec<String> = Vec::new();
        let mut i: usize = 0;
        while i < flags.len()
            invariant
                i <= flags@.len(),
                self@ == handed_after(start, flags@.take(i as int)),
                ids@ == to_hand_off(start, flags@.take(i as int)).map_values(|f: Flag| f.id),
                texts@ == to_hand_off(start, flags@.take(i as int)).map_values(|f: Flag| f.text),
            decreases flags@.len() - i,
        {
            let f = &flags[i];
            proof {
                assert(flags@.take(i + 1).drop_last() =~= flags@.take(i as int));
                assert(flags@.take(i + 1).last() == *f);
            }
            if !self.contains(&f.text) {
                let ghost before = self@;
                let ghost old_texts = self.texts@;
                self.texts.push(f.text.clone());
                proof {
                    let n = old_texts.len() as int;
                    assert forall|t: Seq<char>| #[trigger] self@.contains(t) == before.insert(
                        f.text@,
                    ).contains(t) by {
                        if before.contains(t) {
                            let k = choose|k: int| 0 <= k < old_texts.len() && (#[trigger] old_texts[k])@ == t;
                            assert(self.texts@[k] == old_texts[k]);
                        }
                        if t == f.text@ {
                            assert(self.texts@[n]@ == t);
                        }
                        if self@.contains(t) && t != f.text@ {
                            let k = choose|k: int| 0 <= k < self.texts@.len() && (#[trigger] self.texts@[k])@ == t;
                            assert(k < n);
                            assert(old_texts[k] == self.texts@[k]);
                        }
                    }
                    assert(self@ =~= before.insert(f.text@));
                }
                let ghost ids_before = ids@;
                let ghost texts_before = texts@;
                ids.push(f.id);
                texts.push(f.text.clone());
                proof {
                    let sel = to_hand_off(start, flags@.take(i + 1));
                    assert(sel == to_hand_off(start, flags@.take(i as int)).push(*f));
                    assert(ids@ =~= sel.map_values(|f: Flag| f.id));
                    assert(texts@ =~= sel.map_values(|f: Flag| f.text));
                }
            } else {
                proof {
                    assert(self@.insert(f.text@) =~= self@);
                }
            }
            i = i + 1;
        }
        proof {
            assert(flags@.take(flags@.len() as int) =~= flags@);
        }
        let chunks = chunk(texts, CHUNK_SIZE);
        SubmissionPlan { mark_submitted: ids, chunks }
    }
}

/// The status updates for the verdicts: each flag's text with the verdict's code.
pub open spec fn status_rows(results: Seq<(String, FlagStatus)>) -> Seq<(Seq<char>, Seq<char>)> {
    results.map_values(|x: (String, FlagStatus)| (x.0@, code_of(x.1)))
}

/// How many verdicts accept their flag.
pub open spec fn accepted_count(results: Seq<(String, FlagStatus)>) -> nat {
    results.filter(|x: (String, FlagStatus)| x.1 == FlagStatus::Accepted).len()
}

/// Turns a batch's verdicts into status updates (flag text, code) and counts the
/// accepted flags.
pub fn status_updates(results: &Vec<(String, FlagStatus)>) -> (r: (Vec<(String, String)>, usize))
    ensures
        r.0@.map_values(|x: (String, String)| (x.0@, x.1@)) == status_rows(results@),
        r.1 == accepted_count(results@),
{
    let mut out: Vec<(String, String)> = Vec::new();
    let mut accepted: usize = 0;
    let mut i: usize = 0;
    while i < results.len()
        invariant
            i <= results@.len(),
            out@.map_values(|x: (String, String)| (x.0@, x.1@)) == status_rows(
                results@.take(i as int),
            ),
            accepted == accepted_count(results@.take(i as int)),
            accepted <= i,
        decreases results@.len() - i,
    {
        let (text, status) = (&results[i].0, results[i].1);
        let ghost before = out@;
        out.push((text.clone(), status.to_string()));
        proof {
            reveal(Seq::filter);
            let t = results@.take(i + 1);
            assert(t.drop_last() =~= results@.take(i as int));
            assert(out@.map_values(|x: (String, String)| (x.0@, x.1@)) =~= before.map_values(
                |x: (String, String)| (x.0@, x.1@),
            ).push((text@, code_of(status))));
            assert(status_rows(t) =~= status_rows(results@.take(i as int)).push(
                (text@, code_of(status)),
            ));
        }
        if status == FlagStatus::Accepted {
            accepted = accepted + 1;
        }
        i = i + 1;
    }
    proof {
        assert(results@.take(results@.len() as int) =~= results@);
    }
    (out, accepted)
}

/// Taking in flags never forgets a text, and remembers every text taken in.
pub proof fn lemma_handed_after_grows(handed: Set<Seq<char>>, flags: Seq<Flag>)
    ensures
        handed.subset_of(handed_after(handed, flags)),
        forall|i: int| 0 <= i < flags.len() ==> handed_after(handed, flags).contains((#[trigger] flags[i]).text@),
    decreases flags.len(),
{
    if flags.len() > 0 {
        lemma_handed_after_grows(handed, flags.drop_last());
        assert forall|i: int| 0 <= i < flags.len() implies handed_after(handed, flags).contains(
            (#[trigger] flags[i]).text@,
        ) by {
            if i < flags.len() - 1 {
                assert(flags.drop_last()[i] == flags[i]);
            }
        }
    }
}

/// Within one firing the handed-off flags have pairwise different texts, none handed
/// off before, and all remembered afterwards.
pub proof fn lemma_hand_off_new(handed: Set<Seq<char>>, flags: Seq<Flag>)
    ensures
        forall|i: int|
            0 <= i < to_hand_off(handed, flags).len() ==> !handed.contains(
                (#[trigger] to_hand_off(handed, flags)[i]).text@,
            ) && handed_after(handed, flags).contains(to_hand_off(handed, flags)[i].text@),
        forall|i: int, j: int|
            0 <= i < j < to_hand_off(handed, flags).len() ==> (#[trigger] to_hand_off(
                handed,
                flags,
            )[i]).text@ != (#[trigger] to_hand_off(handed, flags)[j]).text@,
    decreases flags.len(),
{
    if flags.len() > 0 {
        let prev = flags.drop_last();
        lemma_hand_off_new(handed, prev);
        lemma_handed_after_grows(handed, prev);
        let f = to_hand_off(handed, flags);
        let fp = to_hand_off(handed, prev);
        assert forall|i: int| 0 <= i < f.len() implies !handed.contains((#[trigger] f[i]).text@)
            && handed_after(handed, flags).contains(f[i].text@) by {
            if i < fp.len() {
                assert(f[i] == fp[i]);
            }
        }
        assert forall|i: int, j: int| 0 <= i < j < f.len() implies (#[trigger] f[i]).text@
            != (#[trigger] f[j]).text@ by {
            if j < fp.len() {
                assert(f[i] == fp[i] && f[j] == fp[j]);
            } else {
                assert(f[i] == fp[i]);
                assert(handed_after(handed, prev).contains(fp[i].text@));
            }
        }
    }
}

/// A flag is handed off, and so marked submitted, at most once: no flag handed off in
/// a later firing has the text of one handed off in an earlier firing, and no text is
/// handed off twice in one firing. Flag texts are unique, so no row is queued again
/// once marked.
pub proof fn lemma_marked_once(handed: Set<Seq<char>>, first: Seq<Flag>, second: Seq<Flag>)
    ensures
        forall|i: int, j: int|
            0 <= i < to_hand_off(handed, first).len() && 0 <= j < to_hand_off(
                handed_after(handed, first),
                second,
            ).len() ==> (#[trigger] to_hand_off(handed, first)[i]).text@ != (#[trigger] to_hand_off(
                handed_after(handed, first),
                second,
            )[j]).text@,
        forall|i: int, j: int|
            0 <= i < j < to_hand_off(handed, first).len() ==> (#[trigger] to_hand_off(
                handed,
                first,
            )[i]).text@ != (#[trigger] to_hand_off(handed, first)[j]).text@,
{
    lemma_hand_off_new(handed, first);
    lemma_hand_off_new(handed_after(handed, first), second);
}

} // verus!
