//! The metrics of the published generation in text exposition format.

use vstd::prelude::*;
use vstd::string::StringExecFns;
use crate::args::ports_view;
use crate::proto::{L3Proto, L4Proto};
use crate::addr::IpAddr;
use crate::structs::{
    generation_wf, generation_within, group_index, has_group, lemma_drop_last_wf,
    lemma_group_index, Generation, GenerationView, GroupView, IpItem, LocalMap,
};
use crate::text::{decimal, push_decimal};

verus! {

/// One metric: a key of the published generation and the number of flows
/// seen under it.
pub ghost struct MetricRecord {
    pub l3_proto: L3Proto,
    pub l4_proto: L4Proto,
    pub count: nat,
}

/// Whether a port is reported: every port where there is no allow-list, and
/// the ports of the list where there is one.
pub open spec fn port_selected(custom_ports: Option<Seq<u16>>, port: u16) -> bool {
    match custom_ports {
        Some(ports) => ports.contains(port),
        None => true,
    }
}

/// The metric of a group.
pub open spec fn record_of(group: GroupView) -> MetricRecord {
    MetricRecord { l3_proto: group.l3_proto, l4_proto: group.l4_proto, count: group.items.len() }
}

/// The metrics of a generation: one for each group whose port is reported,
/// in the order of the groups.
pub open spec fn metric_records(gen: GenerationView, custom_ports: Option<Seq<u16>>) -> Seq<
    MetricRecord,
>
    decreases gen.len(),
{
    if gen.len() == 0 {
        Seq::<MetricRecord>::empty()
    } else if port_selected(custom_ports, gen.last().l4_proto.port_spec()) {
        metric_records(gen.drop_last(), custom_ports).push(record_of(gen.last()))
    } else {
        metric_records(gen.drop_last(), custom_ports)
    }
}

/// The two lines that come before the metrics.
pub open spec fn metrics_header() -> Seq<char> {
    "# HELP active_users Number of users actively hitting on a specific port.\n"@
        + "# TYPE active_users counter\n"@
}

/// The line that comes after the metrics.
pub open spec fn metrics_trailer() -> Seq<char> {
    "# EOF\n"@
}

/// The line of one metric.
pub open spec fn metric_line(record: MetricRecord) -> Seq<char> {
    "active_users{network=\""@ + record.l3_proto.name() + "\",transport=\""@
        + record.l4_proto.name() + "\",port=\""@ + decimal(record.l4_proto.port_spec() as nat)
        + "\"} "@ + decimal(record.count) + "\n"@
}

/// The lines of the metrics, one after another.
pub open spec fn metric_lines(records: Seq<MetricRecord>) -> Seq<char>
    decreases records.len(),
{
    if records.len() == 0 {
        Seq::<char>::empty()
    } else {
        metric_lines(records.drop_last()) + metric_line(records.last())
    }
}

/// The exposition of a generation: the header, one line for each metric,
/// and the trailer.
pub open spec fn metrics_text(gen: GenerationView, custom_ports: Option<Seq<u16>>) -> Seq<char> {
    metrics_header() + metric_lines(metric_records(gen, custom_ports)) + metrics_trailer()
}

/// The keys of a generation whose port is reported.
pub open spec fn reported_keys(gen: GenerationView, custom_ports: Option<Seq<u16>>) -> Set<
    (L3Proto, L4Proto),
> {
    Set::new(
        |key: (L3Proto, L4Proto)|
            has_group(gen, key.0, key.1) && port_selected(custom_ports, key.1.port_spec()),
    )
}

/// The addresses of the flows of a group.
pub open spec fn addresses_of(group: GroupView) -> Seq<IpAddr> {
    Seq::new(group.items.len(), |k: int| group.items[k].ip_spec())
}

/// The distinct addresses seen under a key.
pub open spec fn addresses_under(gen: GenerationView, l3_proto: L3Proto, l4_proto: L4Proto)
    -> Set<IpAddr> {
    if has_group(gen, l3_proto, l4_proto) {
        addresses_of(gen[group_index(gen, l3_proto, l4_proto)]).to_set()
    } else {
        Set::<IpAddr>::empty()
    }
}

/// The flows of a group have as many distinct addresses as the group has
/// flows: the count of a key is the number of distinct addresses seen under
/// it.
pub proof fn lemma_group_addresses(gen: GenerationView, i: int)
    requires
        generation_wf(gen),
        0 <= i < gen.len(),
    ensures
        addresses_under(gen, gen[i].l3_proto, gen[i].l4_proto).finite(),
        addresses_under(gen, gen[i].l3_proto, gen[i].l4_proto).len() == gen[i].items.len(),
{
    lemma_group_index(gen, i);
    let items = gen[i].items;
    let ips = addresses_of(gen[i]);
    assert forall|a: int, b: int| 0 <= a < ips.len() && 0 <= b < ips.len() && a != b implies ips[a]
        != ips[b] by {
        assert(items[a].wf() && items[a].l4_proto_spec() == gen[i].l4_proto);
        assert(items[b].wf() && items[b].l4_proto_spec() == gen[i].l4_proto);
        assert(items.no_duplicates());
        if ips[a] == ips[b] {
            IpItem::lemma_same(items[a], items[b]);
        }
    }
    ips.unique_seq_to_set();
    vstd::seq_lib::seq_to_set_is_finite(ips);
}

/// The metrics hold one record for each key of the generation whose port is
/// reported, and the count of each record is the number of distinct
/// addresses seen under its key.
pub proof fn lemma_metrics_count(gen: GenerationView, custom_ports: Option<Seq<u16>>)
    requires
        generation_wf(gen),
    ensures
        reported_keys(gen, custom_ports).finite(),
        metric_records(gen, custom_ports).len() == reported_keys(gen, custom_ports).len(),
        forall|i: int|
            0 <= i < metric_records(gen, custom_ports).len() ==> {
                let record = #[trigger] metric_records(gen, custom_ports)[i];
                &&& reported_keys(gen, custom_ports).contains((record.l3_proto, record.l4_proto))
                &&& addresses_under(gen, record.l3_proto, record.l4_proto).finite()
                &&& record.count == addresses_under(gen, record.l3_proto, record.l4_proto).len()
            },
    decreases gen.len(),
{
    let records = metric_records(gen, custom_ports);
    let keys = reported_keys(gen, custom_ports);
    if gen.len() == 0 {
        assert(keys =~= Set::<(L3Proto, L4Proto)>::empty());
    } else {
        let prev = gen.drop_last();
        let last = gen.last();
        let last_key = (last.l3_proto, last.l4_proto);
        let prev_keys = reported_keys(prev, custom_ports);
        let prev_records = metric_records(prev, custom_ports);
        lemma_drop_last_wf(gen);
        lemma_metrics_count(prev, custom_ports);
        lemma_group_index(gen, gen.len() - 1);
        // A key of the shorter generation is a key of the longer one, at
        // the same place.
        assert forall|l3: L3Proto, l4: L4Proto| has_group(prev, l3, l4) implies has_group(
            gen,
            l3,
            l4,
        ) && group_index(gen, l3, l4) == group_index(prev, l3, l4) && (l3, l4) != last_key by {
            let j = group_index(prev, l3, l4);
            assert(prev[j] == gen[j]);
            lemma_group_index(gen, j);
            assert(!(gen[j].l3_proto == gen[gen.len() - 1].l3_proto && gen[j].l4_proto
                == gen[gen.len() - 1].l4_proto));
        }
        assert forall|l3: L3Proto, l4: L4Proto| has_group(gen, l3, l4) && (l3, l4)
            != last_key implies has_group(prev, l3, l4) by {
            let j = group_index(gen, l3, l4);
            assert(j < gen.len() - 1);
            assert(prev[j] == gen[j]);
        }
        assert(!prev_keys.contains(last_key));
        if port_selected(custom_ports, last.l4_proto.port_spec()) {
            assert(keys =~= prev_keys.insert(last_key));
        } else {
            assert(keys =~= prev_keys);
        }
        assert forall|i: int| 0 <= i < records.len() implies {
            let record = #[trigger] records[i];
            &&& keys.contains((record.l3_proto, record.l4_proto))
            &&& addresses_under(gen, record.l3_proto, record.l4_proto).finite()
            &&& record.count == addresses_under(gen, record.l3_proto, record.l4_proto).len()
        } by {
            let record = records[i];
            if i < prev_records.len() {
                assert(record == prev_records[i]);
                assert(prev_keys.contains((record.l3_proto, record.l4_proto)));
                assert(has_group(prev, record.l3_proto, record.l4_proto));
                let j = group_index(prev, record.l3_proto, record.l4_proto);
                assert(prev[j] == gen[j]);
            } else {
                assert(record == record_of(last));
                lemma_group_addresses(gen, gen.len() - 1);
            }
        }
    }
}

/// Every metric is of a key of the generation: where every key of the
/// generation is on one of the ports, so is every metric.
pub proof fn lemma_metrics_within(
    gen: GenerationView,
    custom_ports: Option<Seq<u16>>,
    ports: Set<u16>,
)
    requires
        generation_within(gen, ports),
    ensures
        forall|i: int|
            0 <= i < metric_records(gen, custom_ports).len() ==> ports.contains(
                (#[trigger] metric_records(gen, custom_ports)[i]).l4_proto.port_spec(),
            ),
    decreases gen.len(),
{
    if gen.len() > 0 {
        assert forall|i: int| 0 <= i < gen.drop_last().len() implies ports.contains(
            (#[trigger] gen.drop_last()[i]).l4_proto.port_spec(),
        ) by {
            assert(ports.contains(gen[i].l4_proto.port_spec()));
        }
        lemma_metrics_within(gen.drop_last(), custom_ports, ports);
        assert(ports.contains(gen[gen.len() - 1].l4_proto.port_spec()));
    }
}

/// Whether the list holds the port.
pub fn port_listed(ports: &Vec<u16>, port: u16) -> (r: bool)
    ensures
        r == ports@.contains(port),
{
    let mut i: usize = 0;
    while i < ports.len()
        invariant
            i <= ports@.len(),
            forall|j: int| 0 <= j < i ==> ports@[j] != port,
        decreases ports@.len() - i,
    {
        if ports[i] == port {
            return true;
        }
        i += 1;
    }
    false
}

/// Appends the line of one metric.
fn push_metric_line(buf: &mut String, l3_proto: L3Proto, l4_proto: L4Proto, count: usize)
    ensures
        final(buf)@ == old(buf)@ + metric_line(
            MetricRecord { l3_proto, l4_proto, count: count as nat },
        ),
{
    let network = l3_proto.to_string();
    let transport = l4_proto.to_string();
    buf.append("active_users{network=\"");
    buf.append(network.as_str());
    buf.append("\",transport=\"");
    buf.append(transport.as_str());
    buf.append("\",port=\"");
    push_decimal(buf, l4_proto.port() as u64);
    buf.append("\"} ");
    push_decimal(buf, count as u64);
    buf.append("\n");
    assert(buf@ =~= old(buf)@ + metric_line(
        MetricRecord { l3_proto, l4_proto, count: count as nat },
    ));
}

/// The ports of a borrowed allow-list as a sequence, where there is a list.
pub open spec fn borrowed_ports_view(custom_ports: Option<&Vec<u16>>) -> Option<Seq<u16>> {
    match custom_ports {
        Some(ports) => Some(ports@),
        None => None,
    }
}

/// Appends one line for each group of the generation whose port is
/// reported.
fn push_metrics(buf: &mut String, data: &Generation, custom_ports: Option<&Vec<u16>>)
    ensures
        final(buf)@ == old(buf)@ + metric_lines(
            metric_records(data@, borrowed_ports_view(custom_ports)),
        ),
{
    let ghost filter = borrowed_ports_view(custom_ports);
    let mut i: usize = 0;
    assert(data@.take(0) =~= GenerationView::empty());
    assert(buf@ =~= old(buf)@ + metric_lines(metric_records(data@.take(0), filter)));
    while i < data.len()
        invariant
            i <= data@.len(),
            filter == borrowed_ports_view(custom_ports),
            buf@ == old(buf)@ + metric_lines(metric_records(data@.take(i as int), filter)),
        decreases data@.len() - i,
    {
        let group = data.group(i);
        let l4_proto = group.l4_proto();
        let selected = match custom_ports {
            Some(ports) => port_listed(ports, l4_proto.port()),
            None => true,
        };
        proof {
            let next = data@.take(i + 1);
            assert(next.drop_last() =~= data@.take(i as int));
            assert(next.last() == data@[i as int]);
            if selected {
                let records = metric_records(next, filter);
                assert(records.drop_last() =~= metric_records(data@.take(i as int), filter));
                assert(records.last() == record_of(data@[i as int]));
            }
        }
        if selected {
            push_metric_line(buf, group.l3_proto(), l4_proto, group.len());
            assert(buf@ =~= old(buf)@ + metric_lines(metric_records(data@.take(i + 1), filter)));
        }
        i += 1;
    }
    assert(data@.take(data@.len() as int) =~= data@);
}

/// Appends one line for each group of the generation.
pub fn metrics_all_ports(buf: &mut String, data: &Generation)
    ensures
        final(buf)@ == old(buf)@ + metric_lines(metric_records(data@, None)),
{
    push_metrics(buf, data, None);
}

/// Appends one line for each group of the generation whose port is in the
/// list.
pub fn metrics_custom_ports(buf: &mut String, data: &Generation, ports: &Vec<u16>)
    ensures
        final(buf)@ == old(buf)@ + metric_lines(metric_records(data@, Some(ports@))),
{
    push_metrics(buf, data, Some(ports));
}

/// The metrics of the published generation: the header, one line for each
/// key whose port is reported, with the number of distinct addresses seen
/// under the key, and the trailer.
pub fn generate_mertics(local_map: &LocalMap, custom_ports: Option<Vec<u16>>) -> (metrics: String)
    ensures
        metrics@ == metrics_text(local_map.published(), ports_view(custom_ports)),
{
    let prom_metrics = local_map.get_prom_metrics();
    let mut metrics_buffer = String::new();
    metrics_buffer.append(
        "# HELP active_users Number of users actively hitting on a specific port.\n",
    );
    metrics_buffer.append("# TYPE active_users counter\n");
    match &custom_ports {
        Some(ports) => metrics_custom_ports(&mut metrics_buffer, prom_metrics, ports),
        None => metrics_all_ports(&mut metrics_buffer, prom_metrics),
    }
    metrics_buffer.append("# EOF\n");
    assert(metrics_buffer@ =~= metrics_text(local_map.published(), ports_view(custom_ports)));
    metrics_buffer
}

} // verus!
