//! The change-notification bus: which row a database notification is about, and which
//! subscribers stay connected after a broadcast.
use crate::text::str_eq;
use vstd::prelude::*;

verus! {

/// The tables whose changes are broadcast.
#[derive(Debug, Clone, Copy, PartialEq, Eq, Structural)]
pub enum NotifiedTable {
    Exploit,
    Flag,
    Execution,
}

/// The table named `name`, if its changes are broadcast.
pub open spec fn table_named(name: Seq<char>) -> Option<NotifiedTable> {
    if name == "exploit"@ {
        Some(NotifiedTable::Exploit)
    } else if name == "flag"@ {
        Some(NotifiedTable::Flag)
    } else if name == "execution"@ {
        Some(NotifiedTable::Execution)
    } else {
        None
    }
}

impl NotifiedTable {
    /// The table a notification names.
    pub fn from_name(name: &str) -> (r: Option<NotifiedTable>)
        ensures
            r == table_named(name@),
    {
        if str_eq(name, "exploit") {
            Some(NotifiedTable::Exploit)
        } else if str_eq(name, "flag") {
            Some(NotifiedTable::Flag)
        } else if str_eq(name, "execution") {
            Some(NotifiedTable::Execution)
        } else {
            None
        }
    }

    /// Flags and executions are sent with their target's service, team and round.
    pub fn joins_target(&self) -> (r: bool)
        ensures
            r == (*self != NotifiedTable::Exploit),
    {
        match self {
            NotifiedTable::Exploit => false,
            _ => true,
        }
    }
}

/// The subscribers that stay after a broadcast: those whose send succeeded, in order.
pub fn keep_delivered(subscribers: Vec<u64>, delivered: &Vec<bool>) -> (r: Vec<u64>)
    requires
        subscribers@.len() == delivered@.len(),
    ensures
        r@ == kept(subscribers@, delivered@),
{
    let mut out: Vec<u64> = Vec::new();
    let mut i: usize = 0;
    while i < subscribers.len()
        invariant
            i <= subscribers@.len() == delivered@.len(),
            out@ == kept(subscribers@.take(i as int), delivered@.take(i as int)),
        decreases subscribers@.len() - i,
    {
        proof {
            assert(subscribers@.take(i + 1).drop_last() =~= subscribers@.take(i as int));
            assert(delivered@.take(i + 1).drop_last() =~= delivered@.take(i as int));
        }
        if delivered[i] {
            out.push(subscribers[i]);
        }
        i = i + 1;
    }
    proof {
        assert(subscribers@.take(subscribers@.len() as int) =~= subscribers@);
        assert(delivered@.take(delivered@.len() as int) =~= delivered@);
    }
    out
}

/// The subscribers whose delivery succeeded, in order.
pub open spec fn kept(subscribers: Seq<u64>, delivered: Seq<bool>) -> Seq<u64>
    decreases subscribers.len(),
{
    if subscribers.len() == 0 || delivered.len() == 0 {
        Seq::empty()
    } else {
        let prev = kept(subscribers.drop_last(), delivered.drop_last());
        if delivered.last() {
            prev.push(subscribers.last())
        } else {
            prev
        }
    }
}

} // verus!
