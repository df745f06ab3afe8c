use vstd::prelude::*;

verus! {

/// Sum of the received (`.0`) or transmitted (`.1`) byte counts.
pub open spec fn traffic_sum(counters: Seq<(u64, u64)>, tx: bool) -> nat
    decreases counters.len(),
{
    if counters.len() == 0 {
        0
    } else {
        traffic_sum(counters.drop_last(), tx) + if tx { counters.last().1 as nat } else { counters.last().0 as nat }
    }
}

proof fn lemma_traffic_prefix(counters: Seq<(u64, u64)>, n: int, tx: bool)
    requires
        0 <= n <= counters.len(),
    ensures
        traffic_sum(counters.subrange(0, n), tx) <= traffic_sum(counters, tx),
    decreases counters.len() - n,
{
    if n < counters.len() {
        lemma_traffic_prefix(counters, n + 1, tx);
        assert(counters.subrange(0, n + 1).drop_last() =~= counters.subrange(0, n));
    } else {
        assert(counters.subrange(0, n) =~= counters);
    }
}

/// Bytes received and transmitted over all interfaces since the last
/// refresh, from the (received, transmitted) counts of each interface.
pub fn total_traffic(counters: &[(u64, u64)]) -> (r: (u64, u64))
    requires
        traffic_sum(counters@, false) <= u64::MAX,
        traffic_sum(counters@, true) <= u64::MAX,
    ensures
        r.0 == traffic_sum(counters@, false),
        r.1 == traffic_sum(counters@, true),
{
    let mut rx_total: u64 = 0;
    let mut tx_total: u64 = 0;
    let mut i: usize = 0;
    while i < counters.len()
        invariant
            i <= counters@.len(),
            traffic_sum(counters@, false) <= u64::MAX,
            traffic_sum(counters@, true) <= u64::MAX,
            rx_total == traffic_sum(counters@.subrange(0, i as int), false),
            tx_total == traffic_sum(counters@.subrange(0, i as int), true),
        decreases counters@.len() - i,
    {
        proof {
            assert(counters@.subrange(0, i + 1).drop_last() =~= counters@.subrange(0, i as int));
            lemma_traffic_prefix(counters@, i + 1, false);
            lemma_traffic_prefix(counters@, i + 1, true);
        }
        let (rx, tx) = counters[i];
        rx_total = rx_total + rx;
        tx_total = tx_total + tx;
        i = i + 1;
    }
    assert(counters@.subrange(0, counters@.len() as int) =~= counters@);
    (rx_total, tx_total)
}

} // verus!
