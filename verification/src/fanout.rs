//! Authority-side input fan-out.
//!
//! Every input sample the server receives from a client is relayed to every
//! other connected client over the ordered-reliable channel, so observers
//! can feed the same sample into their own history for that remote entity.
//! This module computes the delivery targets: all currently connected
//! clients except the sample's origin (which already has its own sample),
//! in connection-list order, each exactly once.  Performing the sends, and
//! dropping a destination whose connection is gone, is the transport
//! collaborator's part.

use vstd::prelude::*;

verus! {

/// No client identifier appears twice.
pub open spec fn unique_ids(s: Seq<u64>) -> bool {
    forall|i: int, j: int| 0 <= i < j < s.len() ==> s[i] != s[j]
}

/// The fan-out targets: the connected clients, in order, with the origin
/// left out.
pub open spec fn spec_fan_out_targets(connected: Seq<u64>, origin: u64) -> Seq<u64>
    decreases connected.len(),
{
    if connected.len() == 0 {
        Seq::empty()
    } else {
        let front = spec_fan_out_targets(connected.drop_last(), origin);
        if connected.last() == origin {
            front
        } else {
            front.push(connected.last())
        }
    }
}

/// Fan-out exclusion: a sample is never delivered back to its origin, and
/// reaches every other connected client exactly once (each one appears in
/// the target list, the list is free of duplicates, and it holds nothing
/// but connected clients).
pub proof fn lemma_fan_out_exclusion(connected: Seq<u64>, origin: u64)
    requires
        unique_ids(connected),
    ensures
        !spec_fan_out_targets(connected, origin).contains(origin),
        forall|c: u64|
            connected.contains(c) && c != origin ==> spec_fan_out_targets(
                connected,
                origin,
            ).contains(c),
        forall|k: int|
            0 <= k < spec_fan_out_targets(connected, origin).len() ==> connected.contains(
                #[trigger] spec_fan_out_targets(connected, origin)[k],
            ),
        unique_ids(spec_fan_out_targets(connected, origin)),
    decreases connected.len(),
{
    let t = spec_fan_out_targets(connected, origin);
    if connected.len() == 0 {
        assert(!t.contains(origin)) by {
            if t.contains(origin) {
                let k = choose|k: int| 0 <= k < t.len() && t[k] == origin;
            }
        }
    } else {
        let prefix = connected.drop_last();
        let last = connected.last();
        assert(unique_ids(prefix)) by {
            assert forall|i: int, j: int| 0 <= i < j < prefix.len() implies prefix[i]
                != prefix[j] by {
                assert(prefix[i] == connected[i] && prefix[j] == connected[j]);
            }
        }
        lemma_fan_out_exclusion(prefix, origin);
        let front = spec_fan_out_targets(prefix, origin);
        assert(!prefix.contains(last)) by {
            if prefix.contains(last) {
                let k = choose|k: int| 0 <= k < prefix.len() && prefix[k] == last;
                assert(connected[k] == connected[connected.len() - 1]);
            }
        }
        // Whatever holds an element of the shorter list holds one of the
        // longer: lift every containment witness.
        assert forall|c: u64| prefix.contains(c) implies connected.contains(c) by {
            let k = choose|k: int| 0 <= k < prefix.len() && prefix[k] == c;
            assert(connected[k] == c);
        }
        assert(connected.contains(last)) by {
            assert(connected[connected.len() - 1] == last);
        }
        assert forall|c: u64| connected.contains(c) && c != last implies prefix.contains(c) by {
            let k = choose|k: int| 0 <= k < connected.len() && connected[k] == c;
            assert(prefix[k] == c);
        }
        if last == origin {
            assert(t == front);
        } else {
            assert(t == front.push(last));
            assert(!front.contains(last)) by {
                if front.contains(last) {
                    let k = choose|k: int| 0 <= k < front.len() && front[k] == last;
                }
            }
            assert(!t.contains(origin)) by {
                if t.contains(origin) {
                    let k = choose|k: int| 0 <= k < t.len() && t[k] == origin;
                    if k < front.len() {
                        assert(front[k] == origin);
                    }
                }
            }
            assert forall|c: u64| connected.contains(c) && c != origin implies t.contains(c) by {
                if c == last {
                    assert(t[t.len() - 1] == c);
                } else {
                    assert(front.contains(c));
                    let k = choose|k: int| 0 <= k < front.len() && front[k] == c;
                    assert(t[k] == c);
                }
            }
            assert forall|k: int| 0 <= k < t.len() implies connected.contains(#[trigger] t[k]) by {
                if k < front.len() {
                    assert(front[k] == t[k]);
                    assert(front.contains(front[k]));
                } else {
                    assert(t[k] == last);
                }
            }
            assert forall|i: int, j: int| 0 <= i < j < t.len() implies t[i] != t[j] by {
                if j < front.len() {
                    assert(t[i] == front[i] && t[j] == front[j]);
                } else {
                    assert(t[j] == last);
                    if t[i] == last {
                        assert(front[i] == last);
                        assert(front.contains(front[i]));
                    }
                }
            }
        }
    }
}

/// Computes the delivery targets for one received sample: every connected
/// client except the origin, in connection-list order.
pub fn fan_out_targets(origin: u64, connected: &Vec<u64>) -> (targets: Vec<u64>)
    ensures
        targets@ == spec_fan_out_targets(connected@, origin),
{
    let ghost s = connected@;
    let mut targets: Vec<u64> = Vec::new();
    proof {
        assert(s.subrange(0, 0) =~= Seq::<u64>::empty());
    }
    let mut i: usize = 0;
    while i < connected.len()
        invariant
            i <= s.len(),
            s == connected@,
            targets@ == spec_fan_out_targets(s.subrange(0, i as int), origin),
        decreases s.len() - i,
    {
        let c = connected[i];
        proof {
            assert(s.subrange(0, i as int + 1).drop_last() =~= s.subrange(0, i as int));
            assert(s.subrange(0, i as int + 1).last() == s[i as int]);
        }
        if c != origin {
            targets.push(c);
        }
        i = i + 1;
    }
    proof {
        assert(s.subrange(0, s.len() as int) =~= s);
    }
    targets
}

} // verus!
