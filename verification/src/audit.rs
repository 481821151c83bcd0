//! What an audit reports: every signal that could be read, keyed by kind.
use crate::protocol::{SignalKind, SignalMap, SignalValue};
use vstd::prelude::*;

verus! {

/// The signals recorded from readings taken in order: a failed reading
/// (`None`) records nothing, and a later reading of a kind replaces an
/// earlier one.
pub open spec fn recorded(readings: Seq<(SignalKind, Option<SignalValue>)>) -> Map<SignalKind, SignalValue>
    decreases readings.len(),
{
    if readings.len() == 0 {
        Map::empty()
    } else {
        let prev = recorded(readings.drop_last());
        match readings.last().1 {
            Some(v) => prev.insert(readings.last().0, v),
            None => prev,
        }
    }
}

/// The audit result of the providers' readings, taken in registration order.
pub fn collect_signals(readings: Vec<(SignalKind, Option<SignalValue>)>) -> (m: SignalMap)
    ensures
        m@ == recorded(readings@),
{
    let mut m = SignalMap::new();
    let ghost all = readings@;
    let mut i: usize = 0;
    let mut rest = readings;
    let n = rest.len();
    while rest.len() > 0
        invariant
            i + rest.len() == all.len(),
            all.len() == n,
            rest@ == all.subrange(i as int, all.len() as int),
            m@ == recorded(all.take(i as int)),
        decreases rest.len(),
    {
        let (kind, value) = rest.remove(0);
        proof {
            assert(all[i as int] == (kind, value));
            assert(all.take(i + 1).drop_last() =~= all.take(i as int));
        }
        match value {
            Some(v) => m.insert(kind, v),
            None => {},
        }
        i = i + 1;
        proof {
            assert(rest@ =~= all.subrange(i as int, all.len() as int));
        }
    }
    assert(all.take(all.len() as int) =~= all);
    m
}

} // verus!
