//! The flows of the published generation as a list of records.

use vstd::prelude::*;
use crate::api::prometheus::{port_listed, port_selected};
use crate::args::ports_view;
use crate::structs::{
    generation_wf, generation_within, lemma_drop_last_wf, GenerationView, IpItem, LocalMap,
};

verus! {

/// One flow as the list reports it: the address in canonical text, the
/// names of the two protocols, and the destination port.
pub struct IpData {
    pub ip: String,
    pub network: String,
    pub transport: String,
    pub port: u16,
}

/// What a record says.
pub ghost struct IpDataView {
    pub ip: Seq<char>,
    pub network: Seq<char>,
    pub transport: Seq<char>,
    pub port: u16,
}

impl View for IpData {
    type V = IpDataView;

    open spec fn view(&self) -> IpDataView {
        IpDataView {
            ip: self.ip@,
            network: self.network@,
            transport: self.transport@,
            port: self.port,
        }
    }
}

/// The record of a flow.
pub open spec fn ip_data_of(item: IpItem) -> IpDataView {
    IpDataView {
        ip: item.ip_spec().text(),
        network: item.l3_proto_spec().name(),
        transport: item.l4_proto_spec().name(),
        port: item.l4_proto_spec().port_spec(),
    }
}

/// The records of some flows, in their order.
pub open spec fn records_of(items: Seq<IpItem>) -> Seq<IpDataView> {
    Seq::new(items.len(), |i: int| ip_data_of(items[i]))
}

/// The records of a generation: those of each group whose port is reported,
/// group after group.
pub open spec fn listed(gen: GenerationView, custom_ports: Option<Seq<u16>>) -> Seq<IpDataView>
    decreases gen.len(),
{
    if gen.len() == 0 {
        Seq::<IpDataView>::empty()
    } else if port_selected(custom_ports, gen.last().l4_proto.port_spec()) {
        listed(gen.drop_last(), custom_ports) + records_of(gen.last().items)
    } else {
        listed(gen.drop_last(), custom_ports)
    }
}

/// Every record of the list is of a flow of the generation: where every
/// key of a well-formed generation is on one of the ports, so is every
/// record.
pub proof fn lemma_listed_within(
    gen: GenerationView,
    custom_ports: Option<Seq<u16>>,
    ports: Set<u16>,
)
    requires
        generation_wf(gen),
        generation_within(gen, ports),
    ensures
        forall|i: int|
            0 <= i < listed(gen, custom_ports).len() ==> ports.contains(
                (#[trigger] listed(gen, custom_ports)[i]).port,
            ),
    decreases gen.len(),
{
    if gen.len() > 0 {
        let prev = gen.drop_last();
        let last = gen.last();
        lemma_drop_last_wf(gen);
        assert forall|i: int| 0 <= i < prev.len() implies ports.contains(
            (#[trigger] prev[i]).l4_proto.port_spec(),
        ) by {
            assert(ports.contains(gen[i].l4_proto.port_spec()));
        }
        lemma_listed_within(prev, custom_ports, ports);
        assert(ports.contains(gen[gen.len() - 1].l4_proto.port_spec()));
        let all = listed(gen, custom_ports);
        let before = listed(prev, custom_ports);
        assert forall|i: int| 0 <= i < all.len() implies ports.contains((#[trigger] all[i]).port) by {
            if i < before.len() {
                assert(all[i] == before[i]);
            } else {
                let k = i - before.len();
                assert(all[i] == records_of(last.items)[k]);
                assert(gen[gen.len() - 1].items[k].l4_proto_spec() == gen[gen.len() - 1].l4_proto);
            }
        }
    }
}

/// What each record of a list says.
pub open spec fn views_of(list: Seq<IpData>) -> Seq<IpDataView> {
    Seq::new(list.len(), |i: int| list[i]@)
}

impl IpData {
    /// The record of a flow.
    pub fn from_item(item: &IpItem) -> (data: IpData)
        ensures
            data@ == ip_data_of(*item),
    {
        IpData {
            ip: item.ip().to_string(),
            network: item.l3_proto().to_string(),
            transport: item.l4_proto().to_string(),
            port: item.port(),
        }
    }
}

/// The flows of the published generation as records: every flow where
/// there is no allow-list of ports, and the flows on the ports of the list
/// where there is one.
pub fn generate_list(local_map: &LocalMap, custom_ports: Option<Vec<u16>>) -> (ip_list: Vec<
    IpData,
>)
    ensures
        views_of(ip_list@) == listed(local_map.published(), ports_view(custom_ports)),
{
    let ghost filter = ports_view(custom_ports);
    let published = local_map.get_prom_metrics();
    let mut ip_list: Vec<IpData> = Vec::new();
    let mut g: usize = 0;
    assert(published@.take(0) =~= GenerationView::empty());
    assert(views_of(ip_list@) =~= listed(published@.take(0), filter));
    while g < published.len()
        invariant
            g <= published@.len(),
            filter == ports_view(custom_ports),
            views_of(ip_list@) == listed(published@.take(g as int), filter),
        decreases published@.len() - g,
    {
        let group = published.group(g);
        let selected = match &custom_ports {
            Some(ports) => port_listed(ports, group.l4_proto().port()),
            None => true,
        };
        proof {
            let next = published@.take(g + 1);
            assert(next.drop_last() =~= published@.take(g as int));
            assert(next.last() == published@[g as int]);
        }
        if selected {
            let ghost before = views_of(ip_list@);
            let items = group.items();
            let mut k: usize = 0;
            assert(views_of(ip_list@) =~= before + records_of(items@.take(0)));
            while k < items.len()
                invariant
                    k <= items@.len(),
                    views_of(ip_list@) == before + records_of(items@.take(k as int)),
                decreases items@.len() - k,
            {
                let ghost prev = ip_list@;
                ip_list.push(IpData::from_item(&items[k]));
                proof {
                    let now = views_of(ip_list@);
                    let want = before + records_of(items@.take(k + 1));
                    assert(views_of(prev) == before + records_of(items@.take(k as int)));
                    assert(views_of(prev).len() == prev.len());
                    assert(records_of(items@.take(k as int)).len() == k);
                    assert(records_of(items@.take(k + 1)).len() == k + 1);
                    assert(now.len() == want.len());
                    assert forall|i: int| 0 <= i < now.len() implies now[i] == want[i] by {
                        if i < prev.len() {
                            assert(views_of(prev)[i] == prev[i]@);
                            assert(views_of(prev)[i] == (before + records_of(
                                items@.take(k as int),
                            ))[i]);
                        }
                    }
                    assert(now =~= want);
                }
                k += 1;
            }
            assert(items@.take(items@.len() as int) =~= items@);
        }
        g += 1;
    }
    assert(published@.take(published@.len() as int) =~= published@);
    ip_list
}

} // verus!
