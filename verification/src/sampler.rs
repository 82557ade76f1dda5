//! The sampler: on every tick it hands the entries of the flow tables to the
//! aggregator and clears the tables, and at the end of every aggregation
//! window it has the aggregator publish what it gathered.

use vstd::prelude::*;
use crate::classifier::TableId;
use crate::structs::{added, generation_within, lemma_added_within, GenerationView, LocalMap};
use crate::table::{
    entries_within, keys_of, lemma_removed_all_empty, removed_all, BoundedFlowTable, FlowAddress,
    SharedMaps,
};

verus! {

/// The seconds between two ticks of the sampler.
pub const SAMPLING_SECONDS: u64 = 10;

/// The generation after the entries of one table were added to it, one
/// after another.
pub open spec fn absorbed<K: FlowAddress>(
    gen: GenerationView,
    id: TableId,
    entries: Seq<(K, u16)>,
) -> GenerationView
    decreases entries.len(),
{
    if entries.len() == 0 {
        gen
    } else {
        added(
            absorbed(gen, id, entries.drop_last()),
            id.l3_proto_spec(),
            id.l4_proto_spec(entries.last().1),
            entries.last().0.ip_spec(),
        )
    }
}

/// The generation after the entries of the four tables were added to it:
/// TCP over IPv4 first, then UDP over IPv4, TCP over IPv6 and UDP over
/// IPv6.
pub open spec fn sampled(
    gen: GenerationView,
    tcp_v4: Seq<([u8; 4], u16)>,
    udp_v4: Seq<([u8; 4], u16)>,
    tcp_v6: Seq<([u16; 8], u16)>,
    udp_v6: Seq<([u16; 8], u16)>,
) -> GenerationView {
    absorbed(
        absorbed(
            absorbed(absorbed(gen, TableId::TcpV4, tcp_v4), TableId::UdpV4, udp_v4),
            TableId::TcpV6,
            tcp_v6,
        ),
        TableId::UdpV6,
        udp_v6,
    )
}

/// Whether the tick that follows `aggr_counter` seconds of the current
/// window ends the window.
pub open spec fn promotes(aggr_counter: u64, aggregate_window: u64) -> bool {
    aggr_counter + SAMPLING_SECONDS >= aggregate_window
}

/// The seconds of the current window after a tick: none where the tick
/// ended the window.
pub open spec fn next_counter(aggr_counter: u64, aggregate_window: u64) -> int {
    if promotes(aggr_counter, aggregate_window) {
        0
    } else {
        aggr_counter + SAMPLING_SECONDS
    }
}

/// Promotion comes once per window: where the window is a positive
/// multiple of the seconds between two ticks, and the count is one that the
/// ticks of a window reach, only the tick after `window - 10` seconds ends
/// the window, and the count stays one that the ticks of a window reach.
pub proof fn lemma_promotes_once_per_window(aggr_counter: u64, aggregate_window: u64)
    requires
        aggregate_window > 0,
        aggregate_window % SAMPLING_SECONDS == 0,
        aggr_counter % SAMPLING_SECONDS == 0,
        aggr_counter < aggregate_window,
    ensures
        promotes(aggr_counter, aggregate_window) <==> aggr_counter == aggregate_window
            - SAMPLING_SECONDS,
        next_counter(aggr_counter, aggregate_window) % (SAMPLING_SECONDS as int) == 0,
        0 <= next_counter(aggr_counter, aggregate_window) < aggregate_window,
{
}

/// The count after a number of ticks, the first of which started with a
/// count of zero.
pub open spec fn counter_after(ticks: nat, aggregate_window: u64) -> int
    decreases ticks,
{
    if ticks == 0 {
        0
    } else {
        next_counter(
            counter_after((ticks - 1) as nat, aggregate_window) as u64,
            aggregate_window,
        )
    }
}

/// With a window of `n` ticks, the count after `ticks` ticks is ten seconds
/// for each tick since the last multiple of `n`: so the ticks that end a
/// window are exactly every `n`-th.
pub proof fn lemma_counter_after(ticks: nat, n: nat)
    requires
        n > 0,
        n * SAMPLING_SECONDS <= u64::MAX,
    ensures
        counter_after(ticks, (n * SAMPLING_SECONDS) as u64) == (ticks % n) * SAMPLING_SECONDS,
    decreases ticks,
{
    let window = (n * SAMPLING_SECONDS) as u64;
    assert(window == n * 10);
    if ticks == 0 {
        assert(0nat % n == 0) by (nonlinear_arith)
            requires
                n > 0,
        ;
    } else {
        let before = (ticks - 1) as nat;
        lemma_counter_after(before, n);
        let m = before % n;
        assert(counter_after(before, window) == m * 10);
        assert(m < n) by (nonlinear_arith)
            requires
                n > 0,
                m == before % n,
        ;
        if m == n - 1 {
            assert(ticks % n == 0) by (nonlinear_arith)
                requires
                    ticks == before + 1,
                    before % n == n - 1,
                    n > 0,
            ;
            assert(counter_after(ticks, window) == 0);
        } else {
            assert(ticks % n == m + 1) by (nonlinear_arith)
                requires
                    ticks == before + 1,
                    m == before % n,
                    m < n - 1,
                    n > 0,
            ;
            assert(counter_after(ticks, window) == m * 10 + 10);
        }
    }
}

/// Adding the entries of a table that are all on the given ports keeps the
/// keys of a generation on the ports.
pub proof fn lemma_absorbed_within<K: FlowAddress>(
    gen: GenerationView,
    id: TableId,
    entries: Seq<(K, u16)>,
    ports: Set<u16>,
)
    requires
        generation_within(gen, ports),
        entries_within(entries, ports),
    ensures
        generation_within(absorbed(gen, id, entries), ports),
    decreases entries.len(),
{
    if entries.len() > 0 {
        assert forall|i: int| 0 <= i < entries.drop_last().len() implies ports.contains(
            (#[trigger] entries.drop_last()[i]).1,
        ) by {
            assert(ports.contains(entries[i].1));
        }
        lemma_absorbed_within(gen, id, entries.drop_last(), ports);
        assert(ports.contains(entries[entries.len() - 1].1));
        lemma_added_within(
            absorbed(gen, id, entries.drop_last()),
            id.l3_proto_spec(),
            id.l4_proto_spec(entries.last().1),
            entries.last().0.ip_spec(),
            ports,
        );
    }
}

/// A port that the filter does not hold is never published. While the
/// filter is on, the tables hold only ports of the filter, so a sampling
/// adds only keys on ports of the filter to the working generation, and a
/// promotion publishes only such keys.
pub proof fn lemma_sampled_respects_filter(maps: SharedMaps, gen: GenerationView)
    requires
        maps.use_custom_ports,
        maps.respects_filter(),
        generation_within(gen, maps.custom_ports@),
    ensures
        generation_within(
            sampled(
                gen,
                maps.tcp_v4.entries(),
                maps.udp_v4.entries(),
                maps.tcp_v6.entries(),
                maps.udp_v6.entries(),
            ),
            maps.custom_ports@,
        ),
{
    let ports = maps.custom_ports@;
    let first = absorbed(gen, TableId::TcpV4, maps.tcp_v4.entries());
    lemma_absorbed_within(gen, TableId::TcpV4, maps.tcp_v4.entries(), ports);
    let second = absorbed(first, TableId::UdpV4, maps.udp_v4.entries());
    lemma_absorbed_within(first, TableId::UdpV4, maps.udp_v4.entries(), ports);
    let third = absorbed(second, TableId::TcpV6, maps.tcp_v6.entries());
    lemma_absorbed_within(second, TableId::TcpV6, maps.tcp_v6.entries(), ports);
    lemma_absorbed_within(third, TableId::UdpV6, maps.udp_v6.entries(), ports);
}

/// Hands the entries of one table to the aggregator, and records the
/// address of each for its removal.
pub fn absorb<K: FlowAddress>(
    local_map: &mut LocalMap,
    id: TableId,
    entries: &Vec<(K, u16)>,
    seen: &mut Vec<K>,
)
    requires
        old(local_map).wf(),
    ensures
        final(local_map).wf(),
        final(local_map).working() == absorbed(old(local_map).working(), id, entries@),
        final(local_map).published() == old(local_map).published(),
        final(seen)@ == old(seen)@ + keys_of(entries@),
{
    let mut i: usize = 0;
    assert(entries@.take(0) =~= Seq::<(K, u16)>::empty());
    assert(seen@ =~= old(seen)@ + keys_of(entries@.take(0)));
    while i < entries.len()
        invariant
            i <= entries@.len(),
            local_map.wf(),
            local_map.working() == absorbed(old(local_map).working(), id, entries@.take(i as int)),
            local_map.published() == old(local_map).published(),
            seen@ == old(seen)@ + keys_of(entries@.take(i as int)),
        decreases entries@.len() - i,
    {
        let (ip, port) = entries[i];
        proof {
            assert(entries@.take(i + 1).drop_last() =~= entries@.take(i as int));
            assert(entries@.take(i + 1).last() == entries@[i as int]);
        }
        local_map.add_tmp(id.l3_proto(), id.l4_proto(port), ip.ip());
        seen.push(ip);
        assert(seen@ =~= old(seen)@ + keys_of(entries@.take(i + 1)));
        i += 1;
    }
    assert(entries@.take(entries@.len() as int) =~= entries@);
}

/// The addresses that one tick has to remove from the tables of each
/// network protocol.
pub struct Removals {
    /// From both tables of IPv4.
    pub ipv4: Vec<[u8; 4]>,
    /// From both tables of IPv6.
    pub ipv6: Vec<[u16; 8]>,
}

/// Hands the entries that were enumerated from the four tables to the
/// aggregator, and gives back the addresses to remove: for each network
/// protocol those of its TCP table, then those of its UDP table.
pub fn drain_entries(
    local_map: &mut LocalMap,
    tcp_v4: &Vec<([u8; 4], u16)>,
    udp_v4: &Vec<([u8; 4], u16)>,
    tcp_v6: &Vec<([u16; 8], u16)>,
    udp_v6: &Vec<([u16; 8], u16)>,
) -> (removals: Removals)
    requires
        old(local_map).wf(),
    ensures
        final(local_map).wf(),
        final(local_map).working() == sampled(
            old(local_map).working(),
            tcp_v4@,
            udp_v4@,
            tcp_v6@,
            udp_v6@,
        ),
        final(local_map).published() == old(local_map).published(),
        removals.ipv4@ == keys_of(tcp_v4@) + keys_of(udp_v4@),
        removals.ipv6@ == keys_of(tcp_v6@) + keys_of(udp_v6@),
{
    let mut ipv4_orig: Vec<[u8; 4]> = Vec::new();
    let mut ipv6_orig: Vec<[u16; 8]> = Vec::new();
    absorb(local_map, TableId::TcpV4, tcp_v4, &mut ipv4_orig);
    absorb(local_map, TableId::UdpV4, udp_v4, &mut ipv4_orig);
    absorb(local_map, TableId::TcpV6, tcp_v6, &mut ipv6_orig);
    absorb(local_map, TableId::UdpV6, udp_v6, &mut ipv6_orig);
    assert(ipv4_orig@ =~= keys_of(tcp_v4@) + keys_of(udp_v4@));
    assert(ipv6_orig@ =~= keys_of(tcp_v6@) + keys_of(udp_v6@));
    Removals { ipv4: ipv4_orig, ipv6: ipv6_orig }
}

/// Removes each of the addresses from a table.
fn remove_each<K: FlowAddress>(table: &mut BoundedFlowTable<K>, keys: &Vec<K>)
    requires
        old(table).wf(),
    ensures
        final(table).wf(),
        final(table).capacity() == old(table).capacity(),
        final(table).entries() == removed_all(old(table).entries(), keys@),
{
    let mut i: usize = 0;
    assert(keys@.take(0) =~= Seq::<K>::empty());
    while i < keys.len()
        invariant
            i <= keys@.len(),
            table.wf(),
            table.capacity() == old(table).capacity(),
            table.entries() == removed_all(old(table).entries(), keys@.take(i as int)),
        decreases keys@.len() - i,
    {
        proof {
            assert(keys@.take(i + 1).drop_last() =~= keys@.take(i as int));
            assert(keys@.take(i + 1).last() == keys@[i as int]);
        }
        if table.get(&keys[i]).is_some() {
            table.remove(&keys[i]);
        }
        i += 1;
    }
    assert(keys@.take(keys@.len() as int) =~= keys@);
}

/// One sampling: every entry of the four tables is handed to the
/// aggregator, and once all four were enumerated, every address that was
/// seen is removed from both tables of its network protocol. The tables
/// are empty afterwards; the filter stays as it is.
pub fn sample(shared_maps: &mut SharedMaps, local_map: &mut LocalMap)
    requires
        old(shared_maps).wf(),
        old(local_map).wf(),
    ensures
        final(shared_maps).wf(),
        final(shared_maps).is_drained(),
        final(shared_maps).use_custom_ports == old(shared_maps).use_custom_ports,
        final(shared_maps).custom_ports == old(shared_maps).custom_ports,
        final(shared_maps).tcp_v4.capacity() == old(shared_maps).tcp_v4.capacity(),
        final(shared_maps).udp_v4.capacity() == old(shared_maps).udp_v4.capacity(),
        final(shared_maps).tcp_v6.capacity() == old(shared_maps).tcp_v6.capacity(),
        final(shared_maps).udp_v6.capacity() == old(shared_maps).udp_v6.capacity(),
        final(local_map).wf(),
        final(local_map).working() == sampled(
            old(local_map).working(),
            old(shared_maps).tcp_v4.entries(),
            old(shared_maps).udp_v4.entries(),
            old(shared_maps).tcp_v6.entries(),
            old(shared_maps).udp_v6.entries(),
        ),
        final(local_map).published() == old(local_map).published(),
{
    let tcp_v4 = shared_maps.get_tcp_v4().to_vec();
    let udp_v4 = shared_maps.get_udp_v4().to_vec();
    let tcp_v6 = shared_maps.get_tcp_v6().to_vec();
    let udp_v6 = shared_maps.get_udp_v6().to_vec();
    let removals = drain_entries(local_map, &tcp_v4, &udp_v4, &tcp_v6, &udp_v6);
    proof {
        lemma_covers(tcp_v4@, udp_v4@);
        lemma_covers(tcp_v6@, udp_v6@);
        lemma_removed_all_empty(tcp_v4@, removals.ipv4@);
        lemma_removed_all_empty(udp_v4@, removals.ipv4@);
        lemma_removed_all_empty(tcp_v6@, removals.ipv6@);
        lemma_removed_all_empty(udp_v6@, removals.ipv6@);
    }
    remove_each(&mut shared_maps.tcp_v4, &removals.ipv4);
    remove_each(&mut shared_maps.udp_v4, &removals.ipv4);
    remove_each(&mut shared_maps.tcp_v6, &removals.ipv6);
    remove_each(&mut shared_maps.udp_v6, &removals.ipv6);
}

/// The keys of two tables, one after the other, hold every key of each.
proof fn lemma_covers<K>(first: Seq<(K, u16)>, second: Seq<(K, u16)>)
    ensures
        forall|i: int|
            0 <= i < first.len() ==> (keys_of(first) + keys_of(second)).contains(
                (#[trigger] first[i]).0,
            ),
        forall|i: int|
            0 <= i < second.len() ==> (keys_of(first) + keys_of(second)).contains(
                (#[trigger] second[i]).0,
            ),
{
    let keys = keys_of(first) + keys_of(second);
    assert forall|i: int| 0 <= i < first.len() implies keys.contains((#[trigger] first[i]).0) by {
        assert(keys[i] == first[i].0);
    }
    assert forall|i: int| 0 <= i < second.len() implies keys.contains(
        (#[trigger] second[i]).0,
    ) by {
        assert(keys[first.len() + i] == second[i].0);
    }
}

/// Counts one tick towards the aggregation window and, where the tick ends
/// the window, promotes the working generation. Gives back the seconds of
/// the window that is then current.
pub fn advance(local_map: &mut LocalMap, aggr_counter: u64, aggregate_window: u64) -> (next: u64)
    requires
        old(local_map).wf(),
    ensures
        final(local_map).wf(),
        next == next_counter(aggr_counter, aggregate_window),
        promotes(aggr_counter, aggregate_window) ==> final(local_map).published() == old(
            local_map,
        ).working() && final(local_map).working() == GenerationView::empty(),
        !promotes(aggr_counter, aggregate_window) ==> final(local_map).published() == old(
            local_map,
        ).published() && final(local_map).working() == old(local_map).working(),
{
    if aggr_counter >= aggregate_window || aggregate_window - aggr_counter <= SAMPLING_SECONDS {
        local_map.aggr();
        0
    } else {
        aggr_counter + SAMPLING_SECONDS
    }
}

/// One tick of the sampler: a sampling, and the count of the tick towards
/// the aggregation window. `aggr_counter` is the count that the tick before
/// gave back, or zero for the first tick.
pub fn collect(
    shared_maps: &mut SharedMaps,
    local_map: &mut LocalMap,
    aggregate_window: u64,
    aggr_counter: u64,
) -> (next: u64)
    requires
        old(shared_maps).wf(),
        old(local_map).wf(),
    ensures
        final(shared_maps).wf(),
        final(shared_maps).is_drained(),
        final(shared_maps).use_custom_ports == old(shared_maps).use_custom_ports,
        final(shared_maps).custom_ports == old(shared_maps).custom_ports,
        final(shared_maps).tcp_v4.capacity() == old(shared_maps).tcp_v4.capacity(),
        final(shared_maps).udp_v4.capacity() == old(shared_maps).udp_v4.capacity(),
        final(shared_maps).tcp_v6.capacity() == old(shared_maps).tcp_v6.capacity(),
        final(shared_maps).udp_v6.capacity() == old(shared_maps).udp_v6.capacity(),
        final(local_map).wf(),
        next == next_counter(aggr_counter, aggregate_window),
        ({
            let gathered = sampled(
                old(local_map).working(),
                old(shared_maps).tcp_v4.entries(),
                old(shared_maps).udp_v4.entries(),
                old(shared_maps).tcp_v6.entries(),
                old(shared_maps).udp_v6.entries(),
            );
            if promotes(aggr_counter, aggregate_window) {
                &&& final(local_map).published() == gathered
                &&& final(local_map).working() == GenerationView::empty()
            } else {
                &&& final(local_map).published() == old(local_map).published()
                &&& final(local_map).working() == gathered
            }
        }),
{
    sample(shared_maps, local_map);
    advance(local_map, aggr_counter, aggregate_window)
}

} // verus!
