//! The windowed aggregator: the flows seen, grouped by protocol, in a
//! working generation that fills up and a published generation that is read.

use vstd::prelude::*;
use crate::addr::IpAddr;
use crate::proto::{L3Proto, L4Proto};

verus! {

/// One observed flow: a publicly routable source address, the network
/// protocol of the address, and the transport protocol with the destination
/// port.
#[derive(Clone, Copy, Debug)]
pub struct IpItem {
    ip: IpAddr,
    l3_proto: L3Proto,
    l4_proto: L4Proto,
}

impl IpItem {
    /// The source address.
    pub closed spec fn ip_spec(&self) -> IpAddr {
        self.ip
    }

    /// The network protocol.
    pub closed spec fn l3_proto_spec(&self) -> L3Proto {
        self.l3_proto
    }

    /// The transport protocol with the destination port.
    pub closed spec fn l4_proto_spec(&self) -> L4Proto {
        self.l4_proto
    }

    /// The item of an address and a transport protocol.
    pub closed spec fn of(ip: IpAddr, l4_proto: L4Proto) -> IpItem {
        IpItem { ip, l3_proto: ip.network_spec(), l4_proto }
    }

    /// The address is publicly routable and of the item's network protocol.
    pub open spec fn wf(&self) -> bool {
        &&& self.ip_spec().is_global_spec()
        &&& self.l3_proto_spec() == self.ip_spec().network_spec()
    }

    /// An item is its address and its transport protocol.
    pub proof fn lemma_of(ip: IpAddr, l4_proto: L4Proto)
        ensures
            Self::of(ip, l4_proto).ip_spec() == ip,
            Self::of(ip, l4_proto).l3_proto_spec() == ip.network_spec(),
            Self::of(ip, l4_proto).l4_proto_spec() == l4_proto,
    {
    }

    /// Two well-formed items of the same address and transport protocol are
    /// the same item.
    pub proof fn lemma_same(a: IpItem, b: IpItem)
        requires
            a.wf(),
            b.wf(),
            a.ip_spec() == b.ip_spec(),
            a.l4_proto_spec() == b.l4_proto_spec(),
        ensures
            a == b,
    {
    }

    /// The item of an address and a transport protocol, unless the address
    /// is not publicly routable.
    pub fn new(ip: IpAddr, l4_proto: &L4Proto) -> (item: Option<Self>)
        ensures
            item == if ip.is_global_spec() {
                Some(Self::of(ip, *l4_proto))
            } else {
                None
            },
            item matches Some(i) ==> i.wf(),
    {
        if ip.is_global() {
            let l3_proto = ip.network();
            Some(IpItem { ip, l3_proto, l4_proto: *l4_proto })
        } else {
            None
        }
    }

    /// The source address.
    pub fn ip(&self) -> (ip: IpAddr)
        ensures
            ip == self.ip_spec(),
    {
        self.ip
    }

    /// The network protocol.
    pub fn l3_proto(&self) -> (l3_proto: L3Proto)
        ensures
            l3_proto == self.l3_proto_spec(),
    {
        self.l3_proto
    }

    /// The transport protocol with the destination port.
    pub fn l4_proto(&self) -> (l4_proto: L4Proto)
        ensures
            l4_proto == self.l4_proto_spec(),
    {
        self.l4_proto
    }

    /// The destination port.
    pub fn port(&self) -> (port: u16)
        ensures
            port == self.l4_proto_spec().port_spec(),
    {
        self.l4_proto.port()
    }

    /// Whether two items are the same flow.
    pub fn same(&self, other: &IpItem) -> (r: bool)
        ensures
            r == (*self == *other),
    {
        self.ip.same(&other.ip) && self.l3_proto == other.l3_proto && self.l4_proto
            == other.l4_proto
    }
}

/// The flows seen under one network protocol and one transport protocol
/// with its port, in the order in which they were first seen.
pub ghost struct GroupView {
    pub l3_proto: L3Proto,
    pub l4_proto: L4Proto,
    pub items: Seq<IpItem>,
}

/// A generation as a sequence of groups, in the order in which their keys
/// were first seen.
pub type GenerationView = Seq<GroupView>;

/// Whether the generation has a group of the key.
pub open spec fn has_group(gen: GenerationView, l3_proto: L3Proto, l4_proto: L4Proto) -> bool {
    exists|i: int|
        0 <= i < gen.len() && (#[trigger] gen[i]).l3_proto == l3_proto && gen[i].l4_proto
            == l4_proto
}

/// The place of the group of the key; meaningful where `has_group` holds.
pub open spec fn group_index(gen: GenerationView, l3_proto: L3Proto, l4_proto: L4Proto) -> int {
    choose|i: int|
        0 <= i < gen.len() && (#[trigger] gen[i]).l3_proto == l3_proto && gen[i].l4_proto
            == l4_proto
}

/// A generation is well formed where no two groups have the same key, no
/// group is empty, no flow stands twice in a group, and every flow is well
/// formed and of the transport protocol and port of its group.
pub open spec fn generation_wf(gen: GenerationView) -> bool {
    &&& forall|i: int, j: int|
        0 <= i < j < gen.len() ==> !((#[trigger] gen[i]).l3_proto == (#[trigger] gen[j]).l3_proto
            && gen[i].l4_proto == gen[j].l4_proto)
    &&& forall|i: int| 0 <= i < gen.len() ==> (#[trigger] gen[i]).items.len() > 0
    &&& forall|i: int| 0 <= i < gen.len() ==> (#[trigger] gen[i]).items.no_duplicates()
    &&& forall|i: int, k: int|
        0 <= i < gen.len() && 0 <= k < gen[i].items.len() ==> (#[trigger] gen[i].items[k]).wf()
            && gen[i].items[k].l4_proto_spec() == gen[i].l4_proto
}

/// The generation after a flow was added under a key. An address that is
/// not publicly routable changes nothing, and so does a flow that its group
/// holds already. Otherwise the flow comes last in the group of the key,
/// and a group that did not exist comes last in the generation.
pub open spec fn added(gen: GenerationView, l3_proto: L3Proto, l4_proto: L4Proto, ip: IpAddr)
    -> GenerationView {
    let item = IpItem::of(ip, l4_proto);
    if !ip.is_global_spec() {
        gen
    } else if has_group(gen, l3_proto, l4_proto) {
        let i = group_index(gen, l3_proto, l4_proto);
        if gen[i].items.contains(item) {
            gen
        } else {
            gen.update(i, GroupView { items: gen[i].items.push(item), ..gen[i] })
        }
    } else {
        gen.push(GroupView { l3_proto, l4_proto, items: seq![item] })
    }
}

/// A private, loopback or link-local address never becomes a flow: adding
/// it leaves the generation as it is.
pub proof fn lemma_local_address_dropped(
    gen: GenerationView,
    l3_proto: L3Proto,
    l4_proto: L4Proto,
    ip: IpAddr,
)
    requires
        ip.is_private_spec() || ip.is_loopback_spec() || ip.is_link_local_spec(),
    ensures
        !ip.is_global_spec(),
        added(gen, l3_proto, l4_proto, ip) == gen,
{
}

/// Every flow of a well-formed generation has a publicly routable address.
pub proof fn lemma_flows_are_global(gen: GenerationView, i: int, k: int)
    requires
        generation_wf(gen),
        0 <= i < gen.len(),
        0 <= k < gen[i].items.len(),
    ensures
        gen[i].items[k].ip_spec().is_global_spec(),
        !gen[i].items[k].ip_spec().is_private_spec(),
        !gen[i].items[k].ip_spec().is_loopback_spec(),
        !gen[i].items[k].ip_spec().is_link_local_spec(),
{
    assert(gen[i].items[k].wf());
}

/// Every key of the generation is on one of the ports.
pub open spec fn generation_within(gen: GenerationView, ports: Set<u16>) -> bool {
    forall|i: int| 0 <= i < gen.len() ==> ports.contains((#[trigger] gen[i]).l4_proto.port_spec())
}

/// Adding a flow on one of the ports keeps the keys of a generation on the
/// ports.
pub proof fn lemma_added_within(
    gen: GenerationView,
    l3_proto: L3Proto,
    l4_proto: L4Proto,
    ip: IpAddr,
    ports: Set<u16>,
)
    requires
        generation_within(gen, ports),
        ports.contains(l4_proto.port_spec()),
    ensures
        generation_within(added(gen, l3_proto, l4_proto, ip), ports),
{
    let after = added(gen, l3_proto, l4_proto, ip);
    assert forall|i: int| 0 <= i < after.len() implies ports.contains(
        (#[trigger] after[i]).l4_proto.port_spec(),
    ) by {
        if i < gen.len() {
            assert(ports.contains(gen[i].l4_proto.port_spec()));
        }
    }
}

/// Where the keys are distinct, the place of a group's key is the one place
/// at which the group stands.
pub proof fn lemma_group_index(gen: GenerationView, i: int)
    requires
        generation_wf(gen),
        0 <= i < gen.len(),
    ensures
        has_group(gen, gen[i].l3_proto, gen[i].l4_proto),
        group_index(gen, gen[i].l3_proto, gen[i].l4_proto) == i,
{
    let l3 = gen[i].l3_proto;
    let l4 = gen[i].l4_proto;
    assert(has_group(gen, l3, l4));
    let p = group_index(gen, l3, l4);
    assert(0 <= p < gen.len() && gen[p].l3_proto == l3 && gen[p].l4_proto == l4);
    if p < i {
        assert(!(gen[p].l3_proto == gen[i].l3_proto && gen[p].l4_proto == gen[i].l4_proto));
    } else if i < p {
        assert(!(gen[i].l3_proto == gen[p].l3_proto && gen[i].l4_proto == gen[p].l4_proto));
    }
}

/// A well-formed generation without its last group is well formed.
pub proof fn lemma_drop_last_wf(gen: GenerationView)
    requires
        generation_wf(gen),
        gen.len() > 0,
    ensures
        generation_wf(gen.drop_last()),
{
    let prev = gen.drop_last();
    assert forall|i: int, j: int| 0 <= i < j < prev.len() implies !((
    #[trigger] prev[i]).l3_proto == (#[trigger] prev[j]).l3_proto && prev[i].l4_proto
        == prev[j].l4_proto) by {
        assert(!(gen[i].l3_proto == gen[j].l3_proto && gen[i].l4_proto == gen[j].l4_proto));
    }
    assert forall|i: int| 0 <= i < prev.len() implies (#[trigger] prev[i]).items.len() > 0 by {
        assert(gen[i].items.len() > 0);
    }
    assert forall|i: int| 0 <= i < prev.len() implies (
    #[trigger] prev[i]).items.no_duplicates() by {
        assert(gen[i].items.no_duplicates());
    }
    assert forall|i: int, k: int| 0 <= i < prev.len() && 0 <= k < prev[i].items.len() implies (
    #[trigger] prev[i].items[k]).wf() && prev[i].items[k].l4_proto_spec() == prev[i].l4_proto by {
        assert(gen[i].items[k].wf());
    }
}

/// Adding a flow keeps a generation well formed.
pub proof fn lemma_added_wf(gen: GenerationView, l3_proto: L3Proto, l4_proto: L4Proto, ip: IpAddr)
    requires
        generation_wf(gen),
    ensures
        generation_wf(added(gen, l3_proto, l4_proto, ip)),
{
    let item = IpItem::of(ip, l4_proto);
    let after = added(gen, l3_proto, l4_proto, ip);
    if ip.is_global_spec() {
        if has_group(gen, l3_proto, l4_proto) {
            let i = group_index(gen, l3_proto, l4_proto);
            if !gen[i].items.contains(item) {
                let items = gen[i].items.push(item);
                assert forall|a: int, b: int|
                    0 <= a < items.len() && 0 <= b < items.len() && a != b implies items[a]
                    != items[b] by {
                    if a < gen[i].items.len() {
                        assert(gen[i].items.contains(gen[i].items[a]));
                    }
                    if b < gen[i].items.len() {
                        assert(gen[i].items.contains(gen[i].items[b]));
                    }
                }
                assert forall|a: int, b: int| 0 <= a < b < after.len() implies !((
                #[trigger] after[a]).l3_proto == (#[trigger] after[b]).l3_proto && after[a].l4_proto
                    == after[b].l4_proto) by {
                    assert(!(gen[a].l3_proto == gen[b].l3_proto && gen[a].l4_proto
                        == gen[b].l4_proto));
                }
                assert forall|a: int, k: int|
                    0 <= a < after.len() && 0 <= k < after[a].items.len() implies (
                #[trigger] after[a].items[k]).wf() && after[a].items[k].l4_proto_spec()
                    == after[a].l4_proto by {
                    if a == i && k == gen[i].items.len() {
                    } else {
                        assert(gen[a].items[k].wf());
                    }
                }
                assert forall|a: int| 0 <= a < after.len() implies (
                #[trigger] after[a]).items.no_duplicates() by {
                    if a != i {
                        assert(gen[a].items.no_duplicates());
                    }
                }
                assert forall|a: int| 0 <= a < after.len() implies (
                #[trigger] after[a]).items.len() > 0 by {
                    if a != i {
                        assert(gen[a].items.len() > 0);
                    }
                }
            }
        } else {
            assert forall|a: int, b: int| 0 <= a < b < after.len() implies !((
            #[trigger] after[a]).l3_proto == (#[trigger] after[b]).l3_proto && after[a].l4_proto
                == after[b].l4_proto) by {
                if b == gen.len() {
                    assert(!(gen[a].l3_proto == l3_proto && gen[a].l4_proto == l4_proto));
                } else {
                    assert(!(gen[a].l3_proto == gen[b].l3_proto && gen[a].l4_proto
                        == gen[b].l4_proto));
                }
            }
            assert forall|a: int, k: int|
                0 <= a < after.len() && 0 <= k < after[a].items.len() implies (
            #[trigger] after[a].items[k]).wf() && after[a].items[k].l4_proto_spec()
                == after[a].l4_proto by {
                if a < gen.len() {
                    assert(gen[a].items[k].wf());
                }
            }
            assert forall|a: int| 0 <= a < after.len() implies (
            #[trigger] after[a]).items.no_duplicates() by {
                if a < gen.len() {
                    assert(gen[a].items.no_duplicates());
                }
            }
            assert forall|a: int| 0 <= a < after.len() implies (#[trigger] after[a]).items.len()
                > 0 by {
                if a < gen.len() {
                    assert(gen[a].items.len() > 0);
                }
            }
        }
    }
}

/// The distinct flows seen under a key; none where the generation has no
/// group of the key.
pub open spec fn flows_under(gen: GenerationView, l3_proto: L3Proto, l4_proto: L4Proto) -> Set<
    IpItem,
> {
    if has_group(gen, l3_proto, l4_proto) {
        gen[group_index(gen, l3_proto, l4_proto)].items.to_set()
    } else {
        Set::<IpItem>::empty()
    }
}

/// The generation as a map from key to the set of the distinct flows seen
/// under the key.
pub open spec fn generation_map(gen: GenerationView) -> Map<(L3Proto, L4Proto), Set<IpItem>> {
    Map::new(
        |key: (L3Proto, L4Proto)| has_group(gen, key.0, key.1),
        |key: (L3Proto, L4Proto)| flows_under(gen, key.0, key.1),
    )
}

/// The generation as a map: adding a flow puts it into the set of its key,
/// and an address that is not publicly routable changes nothing.
pub proof fn lemma_added_map(
    gen: GenerationView,
    l3_proto: L3Proto,
    l4_proto: L4Proto,
    ip: IpAddr,
)
    requires
        generation_wf(gen),
    ensures
        generation_map(added(gen, l3_proto, l4_proto, ip)) == if ip.is_global_spec() {
            generation_map(gen).insert(
                (l3_proto, l4_proto),
                flows_under(gen, l3_proto, l4_proto).insert(IpItem::of(ip, l4_proto)),
            )
        } else {
            generation_map(gen)
        },
{
    let item = IpItem::of(ip, l4_proto);
    let after = added(gen, l3_proto, l4_proto, ip);
    let key = (l3_proto, l4_proto);
    let want = generation_map(gen).insert(key, flows_under(gen, l3_proto, l4_proto).insert(item));
    lemma_added_wf(gen, l3_proto, l4_proto, ip);
    if ip.is_global_spec() {
        if has_group(gen, l3_proto, l4_proto) {
            let i = group_index(gen, l3_proto, l4_proto);
            lemma_group_index(gen, i);
            gen[i].items.lemma_push_to_set_commute(item);
            if gen[i].items.contains(item) {
                assert(gen[i].items.to_set().insert(item) =~= gen[i].items.to_set());
                assert(generation_map(after) =~= want);
            } else {
                assert forall|k: (L3Proto, L4Proto)| has_group(after, k.0, k.1) <==> has_group(
                    gen,
                    k.0,
                    k.1,
                ) by {
                    if has_group(after, k.0, k.1) {
                        let j = group_index(after, k.0, k.1);
                        assert(gen[j].l3_proto == k.0 && gen[j].l4_proto == k.1);
                    }
                    if has_group(gen, k.0, k.1) {
                        let j = group_index(gen, k.0, k.1);
                        assert(after[j].l3_proto == k.0 && after[j].l4_proto == k.1);
                    }
                }
                assert forall|k: (L3Proto, L4Proto)| has_group(gen, k.0, k.1) implies flows_under(
                    after,
                    k.0,
                    k.1,
                ) == if k == key {
                    flows_under(gen, k.0, k.1).insert(item)
                } else {
                    flows_under(gen, k.0, k.1)
                } by {
                    let j = group_index(gen, k.0, k.1);
                    lemma_group_index(gen, j);
                    assert(after[j].l3_proto == k.0 && after[j].l4_proto == k.1);
                    lemma_group_index(after, j);
                    if k == key {
                        assert(j == i);
                    } else {
                        assert(j != i);
                    }
                }
                assert(generation_map(after) =~= want);
            }
        } else {
            let n = gen.len() as int;
            assert(after[n].l3_proto == l3_proto && after[n].l4_proto == l4_proto);
            lemma_group_index(after, n);
            assert(seq![item].to_set() =~= Set::<IpItem>::empty().insert(item)) by {
                assert forall|x: IpItem| seq![item].to_set().contains(x) <==> x == item by {
                    if x == item {
                        assert(seq![item][0] == x);
                    }
                }
            }
            assert forall|k: (L3Proto, L4Proto)| has_group(after, k.0, k.1) <==> (k == key
                || has_group(gen, k.0, k.1)) by {
                if has_group(after, k.0, k.1) {
                    let j = group_index(after, k.0, k.1);
                    if j < n {
                        assert(gen[j].l3_proto == k.0 && gen[j].l4_proto == k.1);
                    }
                }
                if has_group(gen, k.0, k.1) {
                    let j = group_index(gen, k.0, k.1);
                    assert(after[j].l3_proto == k.0 && after[j].l4_proto == k.1);
                }
            }
            assert forall|k: (L3Proto, L4Proto)| has_group(gen, k.0, k.1) implies flows_under(
                after,
                k.0,
                k.1,
            ) == flows_under(gen, k.0, k.1) by {
                let j = group_index(gen, k.0, k.1);
                lemma_group_index(gen, j);
                assert(after[j].l3_proto == k.0 && after[j].l4_proto == k.1);
                lemma_group_index(after, j);
            }
            assert(generation_map(after) =~= want);
        }
    }
}

/// All flows of a generation, group after group.
pub open spec fn flattened(gen: GenerationView) -> Seq<IpItem>
    decreases gen.len(),
{
    if gen.len() == 0 {
        Seq::<IpItem>::empty()
    } else {
        flattened(gen.drop_last()) + gen.last().items
    }
}

/// The flows seen under one key.
pub struct FlowGroup {
    l3_proto: L3Proto,
    l4_proto: L4Proto,
    items: Vec<IpItem>,
}

impl FlowGroup {
    /// The key and the flows of the group.
    pub closed spec fn view(&self) -> GroupView {
        GroupView { l3_proto: self.l3_proto, l4_proto: self.l4_proto, items: self.items@ }
    }

    /// The network protocol of the group's key.
    pub fn l3_proto(&self) -> (l3_proto: L3Proto)
        ensures
            l3_proto == self@.l3_proto,
    {
        self.l3_proto
    }

    /// The transport protocol and port of the group's key.
    pub fn l4_proto(&self) -> (l4_proto: L4Proto)
        ensures
            l4_proto == self@.l4_proto,
    {
        self.l4_proto
    }

    /// The number of flows in the group.
    pub fn len(&self) -> (n: usize)
        ensures
            n == self@.items.len(),
    {
        self.items.len()
    }

    /// The flows of the group, in the order in which they were first seen.
    pub fn items(&self) -> (items: &Vec<IpItem>)
        ensures
            items@ == self@.items,
    {
        &self.items
    }
}

/// The flows seen in one aggregation window, grouped by key.
pub struct Generation {
    groups: Vec<FlowGroup>,
}

impl Generation {
    /// The groups in the order in which their keys were first seen.
    pub closed spec fn view(&self) -> GenerationView {
        Seq::new(self.groups@.len(), |i: int| self.groups@[i]@)
    }

    /// The generation is well formed.
    pub open spec fn wf(&self) -> bool {
        generation_wf(self@)
    }

    /// A generation without flows.
    pub fn new() -> (gen: Self)
        ensures
            gen@ == GenerationView::empty(),
            gen.wf(),
    {
        let gen = Generation { groups: Vec::new() };
        assert(gen@ =~= GenerationView::empty());
        gen
    }

    /// The number of groups, which is the number of keys.
    pub fn len(&self) -> (n: usize)
        ensures
            n == self@.len(),
    {
        self.groups.len()
    }

    /// The group at a place.
    pub fn group(&self, i: usize) -> (group: &FlowGroup)
        requires
            i < self@.len(),
        ensures
            group@ == self@[i as int],
    {
        &self.groups[i]
    }

    /// The place of the group of the key, or the number of groups where
    /// there is none.
    fn find(&self, l3_proto: L3Proto, l4_proto: L4Proto) -> (i: usize)
        requires
            self.wf(),
        ensures
            i <= self@.len(),
            i < self@.len() <==> has_group(self@, l3_proto, l4_proto),
            i < self@.len() ==> group_index(self@, l3_proto, l4_proto) == i,
    {
        let mut i: usize = 0;
        while i < self.groups.len()
            invariant
                i <= self.groups@.len(),
                self.wf(),
                forall|j: int|
                    0 <= j < i ==> !((#[trigger] self@[j]).l3_proto == l3_proto && self@[j].l4_proto
                        == l4_proto),
            decreases self.groups@.len() - i,
        {
            if self.groups[i].l3_proto == l3_proto && self.groups[i].l4_proto == l4_proto {
                proof {
                    lemma_group_index(self@, i as int);
                }
                return i;
            }
            i += 1;
        }
        i
    }

    /// Adds a flow under a key.
    #[verifier::loop_isolation(false)]
    fn add(&mut self, l3_proto: L3Proto, l4_proto: L4Proto, ip: IpAddr)
        requires
            old(self).wf(),
        ensures
            final(self).wf(),
            final(self)@ == added(old(self)@, l3_proto, l4_proto, ip),
    {
        proof {
            lemma_added_wf(self@, l3_proto, l4_proto, ip);
        }
        if let Some(ip_item) = IpItem::new(ip, &l4_proto) {
            let i = self.find(l3_proto, l4_proto);
            if i < self.groups.len() {
                let mut k: usize = 0;
                let n = self.groups[i].items.len();
                while k < n
                    invariant
                        k <= n,
                        *self == *old(self),
                        forall|j: int| 0 <= j < k ==> self.groups@[i as int].items@[j] != ip_item,
                    decreases n - k,
                {
                    if self.groups[i].items[k].same(&ip_item) {
                        assert(self@[i as int].items.contains(ip_item));
                        return ;
                    }
                    k += 1;
                }
                assert(!self@[i as int].items.contains(ip_item));
                self.groups[i].items.push(ip_item);
                assert(self@ =~= added(old(self)@, l3_proto, l4_proto, ip));
            } else {
                let mut items: Vec<IpItem> = Vec::new();
                items.push(ip_item);
                self.groups.push(FlowGroup { l3_proto, l4_proto, items });
                assert(self.groups@[old(self).groups@.len() as int]@.items =~= seq![ip_item]);
                assert(self@ =~= added(old(self)@, l3_proto, l4_proto, ip));
            }
        }
    }
}

/// The aggregator: a working generation, which takes the flows that the
/// sampler hands over, and a published generation, which the query surface
/// reads.
pub struct LocalMap {
    inner_aggr: Generation,
    inner_tmp: Generation,
}

impl LocalMap {
    /// The published generation.
    pub closed spec fn published(&self) -> GenerationView {
        self.inner_aggr@
    }

    /// The working generation.
    pub closed spec fn working(&self) -> GenerationView {
        self.inner_tmp@
    }

    /// Both generations are well formed.
    pub open spec fn wf(&self) -> bool {
        &&& generation_wf(self.published())
        &&& generation_wf(self.working())
    }

    /// An aggregator that has seen nothing and published nothing.
    pub fn new() -> (map: Self)
        ensures
            map.published() == GenerationView::empty(),
            map.working() == GenerationView::empty(),
            map.wf(),
    {
        LocalMap { inner_aggr: Generation::new(), inner_tmp: Generation::new() }
    }

    /// Promotes the working generation: it becomes the published generation
    /// as a whole, in place of the one that was published, and the working
    /// generation starts empty.
    pub fn aggr(&mut self)
        requires
            old(self).wf(),
        ensures
            final(self).wf(),
            final(self).published() == old(self).working(),
            final(self).working() == GenerationView::empty(),
    {
        let mut promoted = Generation::new();
        core::mem::swap(&mut self.inner_tmp, &mut promoted);
        self.inner_aggr = promoted;
    }

    /// Adds a flow to the working generation under the given key. An address
    /// that is not publicly routable is dropped, and a flow that the
    /// generation holds under the key already changes nothing.
    pub fn add_tmp(&mut self, l3_proto: L3Proto, l4_proto: L4Proto, ip: IpAddr)
        requires
            old(self).wf(),
        ensures
            final(self).wf(),
            final(self).working() == added(old(self).working(), l3_proto, l4_proto, ip),
            final(self).published() == old(self).published(),
    {
        self.inner_tmp.add(l3_proto, l4_proto, ip);
    }

    /// The published generation, as the metrics are made from it.
    pub fn get_prom_metrics(&self) -> (gen: &Generation)
        ensures
            gen@ == self.published(),
    {
        &self.inner_aggr
    }

    /// The flows of the published generation, group after group.
    pub fn get_ip_list(&self) -> (ip_list: Vec<&IpItem>)
        ensures
            ip_list@.len() == flattened(self.published()).len(),
            forall|i: int|
                0 <= i < ip_list@.len() ==> *(#[trigger] ip_list@[i]) == flattened(
                    self.published(),
                )[i],
    {
        let mut ip_list: Vec<&IpItem> = Vec::new();
        let mut g: usize = 0;
        assert(self.published().take(0) =~= GenerationView::empty());
        while g < self.inner_aggr.groups.len()
            invariant
                g <= self.inner_aggr.groups@.len(),
                ip_list@.len() == flattened(self.published().take(g as int)).len(),
                forall|i: int|
                    0 <= i < ip_list@.len() ==> *(#[trigger] ip_list@[i]) == flattened(
                        self.published().take(g as int),
                    )[i],
            decreases self.inner_aggr.groups@.len() - g,
        {
            let group = &self.inner_aggr.groups[g];
            let ghost before = ip_list@;
            let mut k: usize = 0;
            while k < group.items.len()
                invariant
                    k <= group.items@.len(),
                    ip_list@.len() == before.len() + k,
                    forall|i: int| 0 <= i < before.len() ==> ip_list@[i] == before[i],
                    forall|i: int| 0 <= i < k ==> *(#[trigger] ip_list@[before.len() + i])
                        == group.items@[i],
                decreases group.items@.len() - k,
            {
                ip_list.push(&group.items[k]);
                k += 1;
            }
            proof {
                let next = self.published().take(g + 1);
                assert(next.drop_last() =~= self.published().take(g as int));
                assert(next.last() == self.published()[g as int]);
                assert(next.last().items == group.items@);
                assert forall|i: int| 0 <= i < ip_list@.len() implies *(#[trigger] ip_list@[i])
                    == flattened(next)[i] by {
                    if i < before.len() {
                        assert(ip_list@[i] == before[i]);
                    } else {
                        assert(*ip_list@[before.len() + (i - before.len())] == group.items@[i
                            - before.len()]);
                    }
                }
            }
            g += 1;
        }
        assert(self.published().take(self.inner_aggr.groups@.len() as int) =~= self.published());
        ip_list
    }
}

} // verus!
