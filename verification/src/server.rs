//! The server side: the registry of nodes that reported recently, and the
//! answers to status reports and control requests.

use crate::shared::{
    param_lookup, str_equal, ControlView, MessageType, MonamiMessage, MonamiStatusMessage,
    StatusView,
};
use crate::utils::{opened, opened_view, open_fails_hard, try_aes_decrypt, CipherError};
use vstd::prelude::*;

verus! {

/// A node that reported: its first report, the address it reported from, and
/// the time (in seconds) after which it counts as gone.
#[derive(Debug)]
pub struct MonamiNode {
    message: MonamiStatusMessage,
    address: String,
    expires_at: i64,
}

/// Mathematical view of a node.
pub struct NodeView {
    pub message: StatusView,
    pub address: Seq<char>,
    pub expires_at: i64,
}

impl View for MonamiNode {
    type V = NodeView;

    closed spec fn view(&self) -> NodeView {
        NodeView { message: self.message@, address: self.address@, expires_at: self.expires_at }
    }
}

impl MonamiNode {
    /// The report that registered the node.
    pub fn message(&self) -> (m: &MonamiStatusMessage)
        ensures
            m@ == self@.message,
    {
        &self.message
    }

    /// The address the node reported from.
    pub fn address(&self) -> (a: &String)
        ensures
            a@ == self@.address,
    {
        &self.address
    }

    /// The time after which the node counts as gone.
    pub fn expires_at(&self) -> (t: i64)
        ensures
            t == self@.expires_at,
    {
        self.expires_at
    }

    /// A copy of this node.
    pub fn duplicate(&self) -> (copy: MonamiNode)
        ensures
            copy@ == self@,
    {
        MonamiNode {
            message: self.message.duplicate(),
            address: self.address.clone(),
            expires_at: self.expires_at,
        }
    }
}

/// The views of a sequence of nodes.
pub open spec fn node_views(nodes: Seq<MonamiNode>) -> Seq<NodeView> {
    nodes.map_values(|n: MonamiNode| n@)
}

/// No two nodes carry the same client id.
pub open spec fn uuids_distinct(nodes: Seq<NodeView>) -> bool {
    forall|i: int, j: int|
        0 <= i < j < nodes.len() ==> #[trigger] nodes[i].message.uuid != #[trigger] nodes[j].message.uuid
}

/// Some node carries the client id `uuid`.
pub open spec fn has_uuid(nodes: Seq<NodeView>, uuid: Seq<char>) -> bool {
    exists|i: int| 0 <= i < nodes.len() && #[trigger] nodes[i].message.uuid == uuid
}

/// The registry after a report: a known client has its expiry time set (its
/// stored report and address stay), an unknown one is appended.
pub open spec fn refreshed(
    nodes: Seq<NodeView>,
    status: StatusView,
    address: Seq<char>,
    expires_at: i64,
) -> Seq<NodeView> {
    if has_uuid(nodes, status.uuid) {
        let i = choose|i: int| 0 <= i < nodes.len() && #[trigger] nodes[i].message.uuid == status.uuid;
        nodes.update(
            i,
            NodeView { message: nodes[i].message, address: nodes[i].address, expires_at },
        )
    } else {
        nodes.push(NodeView { message: status, address, expires_at })
    }
}

/// The nodes that have not expired at time `now`.
pub open spec fn unexpired(nodes: Seq<NodeView>, now: i64) -> Seq<NodeView> {
    nodes.filter(|n: NodeView| n.expires_at > now)
}

/// The registry after a report received at time `now` from `address`, with
/// nodes expiring `expiration` seconds after their last report.
pub open spec fn after_report(
    nodes: Seq<NodeView>,
    status: StatusView,
    address: Seq<char>,
    now: i64,
    expiration: i64,
) -> Seq<NodeView> {
    unexpired(refreshed(nodes, status, address, (now + expiration) as i64), now)
}

/// The nodes whose report carries the tag `tag`.
pub open spec fn with_tag(nodes: Seq<NodeView>, tag: Seq<char>) -> Seq<NodeView> {
    nodes.filter(|n: NodeView| n.message.tag == tag)
}

/// Filtering keeps client ids distinct.
pub proof fn lemma_filter_keeps_distinct(nodes: Seq<NodeView>, keep: spec_fn(NodeView) -> bool)
    requires
        uuids_distinct(nodes),
    ensures
        uuids_distinct(nodes.filter(keep)),
    decreases nodes.len(),
{
    reveal(Seq::filter);
    if nodes.len() > 0 {
        let rest = nodes.drop_last();
        let last = nodes.last();
        assert(uuids_distinct(rest));
        lemma_filter_keeps_distinct(rest, keep);
        let fr = rest.filter(keep);
        if keep(last) {
            assert forall|k: int| 0 <= k < fr.len() implies #[trigger] fr[k].message.uuid
                != last.message.uuid by {
                rest.lemma_filter_contains_rev(keep, fr[k]);
                let m = choose|m: int| 0 <= m < rest.len() && rest[m] == fr[k];
            }
            assert(uuids_distinct(fr.push(last)));
        }
    }
}

/// A report from a client that is not registered registers it with the report
/// exactly as received, every field kept, under the sender's address: when
/// nodes stay registered for a positive time, the registry afterwards holds
/// the node made of the received report, the sender's address and the expiry
/// `now + expiration`.
pub proof fn lemma_report_registers_new_client_as_sent(
    nodes: Seq<NodeView>,
    status: StatusView,
    address: Seq<char>,
    now: i64,
    expiration: i64,
)
    requires
        !has_uuid(nodes, status.uuid),
        expiration > 0,
        now + expiration <= i64::MAX,
    ensures
        after_report(nodes, status, address, now, expiration).contains(
            NodeView {
                message: StatusView {
                    hostname: status.hostname,
                    uuid: status.uuid,
                    tag: status.tag,
                    command: status.command,
                    output: status.output,
                    timestamp: status.timestamp,
                },
                address,
                expires_at: (now + expiration) as i64,
            },
        ),
{
    let e = (now + expiration) as i64;
    let mid = refreshed(nodes, status, address, e);
    let alive = |n: NodeView| n.expires_at > now;
    let i = nodes.len() as int;
    assert(mid[i] == NodeView { message: status, address, expires_at: e });
    mid.lemma_filter_contains(alive, i);
}

/// A report registers its client: when nodes stay registered for a positive
/// time, the registry after the report holds a node with the client's id that
/// expires `expiration` seconds after the report.
pub proof fn lemma_report_registers_client(
    nodes: Seq<NodeView>,
    status: StatusView,
    address: Seq<char>,
    now: i64,
    expiration: i64,
)
    requires
        uuids_distinct(nodes),
        expiration > 0,
        now + expiration <= i64::MAX,
    ensures
        exists|i: int|
            0 <= i < after_report(nodes, status, address, now, expiration).len() && #[trigger] after_report(
                nodes,
                status,
                address,
                now,
                expiration,
            )[i].message.uuid == status.uuid && after_report(
                nodes,
                status,
                address,
                now,
                expiration,
            )[i].expires_at == now + expiration,
{
    let e = (now + expiration) as i64;
    let mid = refreshed(nodes, status, address, e);
    let alive = |n: NodeView| n.expires_at > now;
    let r = after_report(nodes, status, address, now, expiration);
    let i = if has_uuid(nodes, status.uuid) {
        choose|i: int| 0 <= i < nodes.len() && #[trigger] nodes[i].message.uuid == status.uuid
    } else {
        nodes.len() as int
    };
    mid.lemma_filter_contains(alive, i);
    let k = choose|k: int| 0 <= k < r.len() && r[k] == mid[i];
    assert(r[k].message.uuid == status.uuid);
}

/// After a report received at time `now`, no registered node has expired:
/// every expiry time is after `now`.
pub proof fn lemma_report_drops_expired(
    nodes: Seq<NodeView>,
    status: StatusView,
    address: Seq<char>,
    now: i64,
    expiration: i64,
)
    ensures
        forall|i: int|
            0 <= i < after_report(nodes, status, address, now, expiration).len() ==> #[trigger] after_report(
                nodes,
                status,
                address,
                now,
                expiration,
            )[i].expires_at > now,
{
    let mid = refreshed(nodes, status, address, (now + expiration) as i64);
    let alive = |n: NodeView| n.expires_at > now;
    assert forall|i: int| 0 <= i < mid.filter(alive).len() implies #[trigger] mid.filter(alive)[i].expires_at
        > now by {
        mid.lemma_filter_pred(alive, i);
    }
}

/// A report from a client that is already registered changes only its expiry
/// time: the node keeps the report that registered it and its address.
pub proof fn lemma_report_keeps_first_report(
    nodes: Seq<NodeView>,
    status: StatusView,
    address: Seq<char>,
    now: i64,
    expiration: i64,
    k: int,
)
    requires
        uuids_distinct(nodes),
        0 <= k < nodes.len(),
        nodes[k].message.uuid == status.uuid,
    ensures
        forall|i: int|
            0 <= i < after_report(nodes, status, address, now, expiration).len() && (#[trigger] after_report(
                nodes,
                status,
                address,
                now,
                expiration,
            )[i]).message.uuid == status.uuid ==> after_report(
                nodes,
                status,
                address,
                now,
                expiration,
            )[i].message == nodes[k].message && after_report(
                nodes,
                status,
                address,
                now,
                expiration,
            )[i].address == nodes[k].address,
{
    let mid = refreshed(nodes, status, address, (now + expiration) as i64);
    let alive = |n: NodeView| n.expires_at > now;
    let r = mid.filter(alive);
    let c = choose|i: int| 0 <= i < nodes.len() && #[trigger] nodes[i].message.uuid == status.uuid;
    assert forall|i: int| 0 <= i < r.len() && (#[trigger] r[i]).message.uuid == status.uuid implies r[i].message
        == nodes[k].message && r[i].address == nodes[k].address by {
        mid.lemma_filter_contains_rev(alive, r[i]);
        let m = choose|m: int| 0 <= m < mid.len() && mid[m] == r[i];
        if m != k {
        }
    }
}

/// A report leaves the other clients' live nodes registered, unchanged.
pub proof fn lemma_report_keeps_other_live_nodes(
    nodes: Seq<NodeView>,
    status: StatusView,
    address: Seq<char>,
    now: i64,
    expiration: i64,
)
    ensures
        forall|k: int|
            0 <= k < nodes.len() && (#[trigger] nodes[k]).message.uuid != status.uuid && nodes[k].expires_at
                > now ==> after_report(nodes, status, address, now, expiration).contains(nodes[k]),
{
    let mid = refreshed(nodes, status, address, (now + expiration) as i64);
    let alive = |n: NodeView| n.expires_at > now;
    assert forall|k: int|
        0 <= k < nodes.len() && (#[trigger] nodes[k]).message.uuid != status.uuid && nodes[k].expires_at
            > now implies mid.filter(alive).contains(nodes[k]) by {
        if has_uuid(nodes, status.uuid) {
            let c = choose|i: int| 0 <= i < nodes.len() && #[trigger] nodes[i].message.uuid == status.uuid;
        }
        mid.lemma_filter_contains(alive, k);
    }
}

/// A listing by tag holds exactly the registered nodes that carry the tag.
pub proof fn lemma_listing_by_tag(nodes: Seq<NodeView>, tag: Seq<char>, n: NodeView)
    ensures
        with_tag(nodes, tag).contains(n) <==> nodes.contains(n) && n.message.tag == tag,
{
    let keep = |m: NodeView| m.message.tag == tag;
    if with_tag(nodes, tag).contains(n) {
        nodes.lemma_filter_contains_rev(keep, n);
        let i = choose|i: int| 0 <= i < nodes.filter(keep).len() && nodes.filter(keep)[i] == n;
        nodes.lemma_filter_pred(keep, i);
    }
    if nodes.contains(n) && n.message.tag == tag {
        let i = choose|i: int| 0 <= i < nodes.len() && nodes[i] == n;
        nodes.lemma_filter_contains(keep, i);
    }
}

/// A report keeps client ids distinct.
pub proof fn lemma_report_keeps_distinct(
    nodes: Seq<NodeView>,
    status: StatusView,
    address: Seq<char>,
    now: i64,
    expiration: i64,
)
    requires
        uuids_distinct(nodes),
    ensures
        uuids_distinct(after_report(nodes, status, address, now, expiration)),
{
    let mid = refreshed(nodes, status, address, (now + expiration) as i64);
    assert(uuids_distinct(mid));
    lemma_filter_keeps_distinct(mid, |n: NodeView| n.expires_at > now);
}

/// A message as the registry sees it: the report it carries, if it is a
/// status report, with the sender's address and the time it was received.
pub struct Delivery {
    pub report: Option<StatusView>,
    pub address: Seq<char>,
    pub now: i64,
}

/// The delivery of `message`, received at time `now` from `address`.
pub open spec fn delivery_of(message: MonamiMessage, address: Seq<char>, now: i64) -> Delivery {
    Delivery {
        report: if message.message_type == MessageType::Status {
            Some(message.message_status->0@)
        } else {
            None
        },
        address,
        now,
    }
}

/// The registry after one delivery: a report is taken in, anything else
/// leaves the registry as it is.
pub open spec fn registry_after(nodes: Seq<NodeView>, delivery: Delivery, expiration: i64) -> Seq<
    NodeView,
> {
    match delivery.report {
        Some(status) => after_report(nodes, status, delivery.address, delivery.now, expiration),
        None => nodes,
    }
}

/// The registry after a sequence of deliveries, in order.
pub open spec fn registry_after_all(
    nodes: Seq<NodeView>,
    deliveries: Seq<Delivery>,
    expiration: i64,
) -> Seq<NodeView>
    decreases deliveries.len(),
{
    if deliveries.len() == 0 {
        nodes
    } else {
        registry_after(
            registry_after_all(nodes, deliveries.drop_last(), expiration),
            deliveries.last(),
            expiration,
        )
    }
}

/// Over any sequence of deliveries, client ids stay distinct: each node is
/// the one node filed under the client id of the report it stores.
pub proof fn lemma_run_keeps_ids_distinct(
    nodes: Seq<NodeView>,
    deliveries: Seq<Delivery>,
    expiration: i64,
)
    requires
        uuids_distinct(nodes),
    ensures
        uuids_distinct(registry_after_all(nodes, deliveries, expiration)),
    decreases deliveries.len(),
{
    if deliveries.len() > 0 {
        lemma_run_keeps_ids_distinct(nodes, deliveries.drop_last(), expiration);
        let mid = registry_after_all(nodes, deliveries.drop_last(), expiration);
        let d = deliveries.last();
        if let Some(status) = d.report {
            lemma_report_keeps_distinct(mid, status, d.address, d.now, expiration);
        }
    }
}

/// No delivery replaces a stored report: a node that is registered before and
/// after a delivery keeps the report that registered it, and its address.
pub proof fn lemma_delivery_keeps_stored_reports(
    nodes: Seq<NodeView>,
    delivery: Delivery,
    expiration: i64,
)
    requires
        uuids_distinct(nodes),
    ensures
        forall|i: int, j: int|
            0 <= i < nodes.len() && 0 <= j < registry_after(nodes, delivery, expiration).len()
                && (#[trigger] registry_after(nodes, delivery, expiration)[j]).message.uuid
                == (#[trigger] nodes[i]).message.uuid ==> registry_after(
                nodes,
                delivery,
                expiration,
            )[j].message == nodes[i].message && registry_after(nodes, delivery, expiration)[j].address
                == nodes[i].address,
{
    let after = registry_after(nodes, delivery, expiration);
    assert forall|i: int, j: int|
        0 <= i < nodes.len() && 0 <= j < after.len() && (#[trigger] after[j]).message.uuid == (
        #[trigger] nodes[i]).message.uuid implies after[j].message == nodes[i].message
        && after[j].address == nodes[i].address by {
        match delivery.report {
            Some(status) => {
                if nodes[i].message.uuid == status.uuid {
                    lemma_report_keeps_first_report(
                        nodes,
                        status,
                        delivery.address,
                        delivery.now,
                        expiration,
                        i,
                    );
                } else {
                    let mid = refreshed(
                        nodes,
                        status,
                        delivery.address,
                        (delivery.now + expiration) as i64,
                    );
                    let alive = |n: NodeView| n.expires_at > delivery.now;
                    assert(mid.filter(alive).contains(after[j]));
                    mid.lemma_filter_contains_rev(alive, after[j]);
                    let m = choose|m: int| 0 <= m < mid.len() && mid[m] == after[j];
                    if has_uuid(nodes, status.uuid) {
                        let c = choose|c: int|
                            0 <= c < nodes.len() && #[trigger] nodes[c].message.uuid == status.uuid;
                        if m == c {
                            assert(false);
                        }
                    }
                    assert(mid[m] == nodes[m]);
                }
            },
            None => {},
        }
    }
}

/// Across a run, a client that stays registered keeps the report that first
/// registered it: if some node carries `uuid` before every delivery and after
/// the last, the node at the end stores the same report and address as the
/// node at the start.
pub proof fn lemma_run_keeps_stored_reports(
    nodes: Seq<NodeView>,
    deliveries: Seq<Delivery>,
    expiration: i64,
    uuid: Seq<char>,
)
    requires
        uuids_distinct(nodes),
        forall|t: int|
            0 <= t <= deliveries.len() ==> has_uuid(
                #[trigger] registry_after_all(nodes, deliveries.take(t), expiration),
                uuid,
            ),
    ensures
        forall|i: int, j: int|
            0 <= i < nodes.len() && 0 <= j < registry_after_all(nodes, deliveries, expiration).len()
                && (#[trigger] nodes[i]).message.uuid == uuid && (#[trigger] registry_after_all(
                nodes,
                deliveries,
                expiration,
            )[j]).message.uuid == uuid ==> registry_after_all(nodes, deliveries, expiration)[j].message
                == nodes[i].message && registry_after_all(nodes, deliveries, expiration)[j].address
                == nodes[i].address,
    decreases deliveries.len(),
{
    if deliveries.len() > 0 {
        let prefix = deliveries.drop_last();
        assert forall|t: int| 0 <= t <= prefix.len() implies has_uuid(
            #[trigger] registry_after_all(nodes, prefix.take(t), expiration),
            uuid,
        ) by {
            assert(prefix.take(t) =~= deliveries.take(t));
        }
        lemma_run_keeps_stored_reports(nodes, prefix, expiration, uuid);
        lemma_run_keeps_ids_distinct(nodes, prefix, expiration);
        let mid = registry_after_all(nodes, prefix, expiration);
        assert(deliveries.take(prefix.len() as int) =~= prefix);
        assert(has_uuid(registry_after_all(nodes, deliveries.take(prefix.len() as int), expiration), uuid));
        let k = choose|k: int| 0 <= k < mid.len() && #[trigger] mid[k].message.uuid == uuid;
        lemma_delivery_keeps_stored_reports(mid, deliveries.last(), expiration);
    } else {
        assert(registry_after_all(nodes, deliveries, expiration) == nodes);
        assert forall|i: int, j: int|
            0 <= i < nodes.len() && 0 <= j < nodes.len() && (#[trigger] nodes[i]).message.uuid == uuid
                && (#[trigger] nodes[j]).message.uuid == uuid implies nodes[j].message == nodes[i].message
            && nodes[j].address == nodes[i].address by {
            assert(i == j);
        }
    }
}

/// `get-details` answers with the whole registry: every registered node, in
/// order, whatever its stored report holds; the parameters do not matter.
pub proof fn lemma_details_answer_is_registry(control: ControlView, registry: Seq<NodeView>)
    requires
        control.function == "get-details"@,
    ensures
        control_answer(control, registry) == ReplyView::Details(registry),
{
}

/// `list-nodes` without a `tag` parameter (in particular with no parameters
/// at all) answers with every registered node, in order; with a `tag`
/// parameter, with exactly the registered nodes whose report carries that tag,
/// in registry order.
pub proof fn lemma_listing_answer(control: ControlView, registry: Seq<NodeView>, n: NodeView)
    requires
        control.function == "list-nodes"@,
    ensures
        control.parameters.len() == 0 ==> control_answer(control, registry) == ReplyView::Listing(
            registry,
        ),
        param_lookup(control.parameters, "tag"@) is None ==> control_answer(control, registry)
            == ReplyView::Listing(registry),
        param_lookup(control.parameters, "tag"@) matches Some(tag) ==> (control_answer(
            control,
            registry,
        ) matches ReplyView::Listing(listed) && (listed.contains(n) <==> registry.contains(n)
            && n.message.tag == tag) && listed == registry.filter(
            |m: NodeView| m.message.tag == tag,
        )),
{
    reveal_strlit("get-details");
    reveal_strlit("list-nodes");
    assert("get-details"@ != "list-nodes"@) by {
        assert("get-details"@[0] != "list-nodes"@[0]);
    }
    if let Some(tag) = param_lookup(control.parameters, "tag"@) {
        lemma_listing_by_tag(registry, tag, n);
    }
}

/// The server's answer to a message.
#[derive(Debug)]
pub enum ServerReply {
    /// A status report was taken in: `{"success": true}`.
    Accepted,
    /// The message could not be read: `{"success": false}`.
    Rejected,
    /// `get-details`: every registered node, by client id.
    Details(Vec<MonamiNode>),
    /// `list-nodes`: the registered nodes, those with the requested tag if a
    /// `tag` parameter was given.
    Listing(Vec<MonamiNode>),
    /// A control function the server does not know.
    Unsupported,
}

/// Mathematical view of a reply.
pub enum ReplyView {
    Accepted,
    Rejected,
    Details(Seq<NodeView>),
    Listing(Seq<NodeView>),
    Unsupported,
}

impl View for ServerReply {
    type V = ReplyView;

    open spec fn view(&self) -> ReplyView {
        match self {
            ServerReply::Accepted => ReplyView::Accepted,
            ServerReply::Rejected => ReplyView::Rejected,
            ServerReply::Details(v) => ReplyView::Details(node_views(v@)),
            ServerReply::Listing(v) => ReplyView::Listing(node_views(v@)),
            ServerReply::Unsupported => ReplyView::Unsupported,
        }
    }
}

/// The answer to a control request, given the registry.
pub open spec fn control_answer(control: ControlView, registry: Seq<NodeView>) -> ReplyView {
    if control.function == "get-details"@ {
        ReplyView::Details(registry)
    } else if control.function == "list-nodes"@ {
        ReplyView::Listing(
            match param_lookup(control.parameters, "tag"@) {
                Some(tag) => with_tag(registry, tag),
                None => registry,
            },
        )
    } else {
        ReplyView::Unsupported
    }
}

/// Copies of `nodes`, or of those with the tag `tag` where one is given.
fn select_nodes(nodes: &Vec<MonamiNode>, tag: Option<&String>) -> (copies: Vec<MonamiNode>)
    ensures
        node_views(copies@) == match tag {
            Some(t) => with_tag(node_views(nodes@), t@),
            None => node_views(nodes@),
        },
{
    let ghost all = node_views(nodes@);
    let ghost keep = |n: NodeView|
        match tag {
            Some(t) => n.message.tag == t@,
            None => true,
        };
    let mut copies: Vec<MonamiNode> = Vec::new();
    let n = nodes.len();
    let mut i: usize = 0;
    proof {
        reveal(Seq::filter);
    }
    while i < n
        invariant
            i <= n,
            n == nodes@.len(),
            all == node_views(nodes@),
            keep == (|n: NodeView|
                match tag {
                    Some(t) => n.message.tag == t@,
                    None => true,
                }),
            node_views(copies@) == all.take(i as int).filter(keep),
        decreases n - i,
    {
        let node = &nodes[i];
        let wanted = match tag {
            Some(t) => node.message.tag == *t,
            None => true,
        };
        assert(all.take(i + 1) =~= all.take(i as int).push(all[i as int]));
        proof {
            all.take(i as int).lemma_filter_push(all[i as int], keep);
        }
        if wanted {
            copies.push(node.duplicate());
        }
        i = i + 1;
    }
    assert(all.take(n as int) =~= all);
    proof {
        match tag {
            Some(t) => {
                assert(keep == (|n: NodeView| n.message.tag == t@));
            },
            None => {
                lemma_filter_all(all, keep);
            },
        }
    }
    copies
}

/// Filtering with a predicate that holds everywhere changes nothing.
proof fn lemma_filter_all(nodes: Seq<NodeView>, keep: spec_fn(NodeView) -> bool)
    requires
        forall|n: NodeView| #[trigger] keep(n),
    ensures
        nodes.filter(keep) == nodes,
    decreases nodes.len(),
{
    reveal(Seq::filter);
    if nodes.len() > 0 {
        lemma_filter_all(nodes.drop_last(), keep);
    }
}

/// The server: the shared secret, the registry of nodes, and how long a node
/// stays registered after its last report. The registry is a vector in order
/// of first report, keyed by client id: no two nodes carry the same id (the
/// type invariant), so it is a map from client id to node.
pub struct MonamiServer {
    secret: String,
    nodes: Vec<MonamiNode>,
    expiration: i64,
}

impl MonamiServer {
    /// Client ids are distinct in the registry.
    #[verifier::type_invariant]
    spec fn distinct_clients(self) -> bool {
        uuids_distinct(node_views(self.nodes@))
    }

    /// The registered nodes, in the order in which they first reported.
    pub closed spec fn registry(&self) -> Seq<NodeView> {
        node_views(self.nodes@)
    }

    /// The shared secret.
    pub closed spec fn secret_text(&self) -> Seq<char> {
        self.secret@
    }

    /// Seconds a node stays registered after its last report.
    pub closed spec fn expiration_secs(&self) -> i64 {
        self.expiration
    }

    /// A server with an empty registry.
    pub fn new(secret: String, expiration: i64) -> (server: MonamiServer)
        ensures
            server.registry() == Seq::<NodeView>::empty(),
            server.secret_text() == secret@,
            server.expiration_secs() == expiration,
    {
        let server = MonamiServer { secret, nodes: Vec::new(), expiration };
        server
    }

    /// The registered nodes.
    pub fn nodes(&self) -> (nodes: &Vec<MonamiNode>)
        ensures
            node_views(nodes@) == self.registry(),
            uuids_distinct(self.registry()),
    {
        proof {
            use_type_invariant(self);
        }
        &self.nodes
    }

    /// The shared secret.
    pub fn secret(&self) -> (secret: &String)
        ensures
            secret@ == self.secret_text(),
    {
        &self.secret
    }

    /// Seconds a node stays registered after its last report.
    pub fn expiration(&self) -> (expiration: i64)
        ensures
            expiration == self.expiration_secs(),
    {
        self.expiration
    }

    /// Opens a received payload with the shared secret; `None` where opening
    /// cannot complete (see `try_aes_decrypt`).
    pub fn open_request(&self, payload: &str) -> (result: Option<Result<String, CipherError>>)
        ensures
            result is None <==> open_fails_hard(payload@, self.secret_text()),
            result matches Some(r) ==> opened_view(r) == opened(payload@, self.secret_text()),
    {
        try_aes_decrypt(payload, self.secret.as_str())
    }

    /// Takes in a report received at time `now` from `address`: the client's
    /// expiry time becomes `now` plus the expiration (a new client is
    /// registered with this report), then every node whose expiry time is not
    /// after `now` is dropped.
    fn record_report(&mut self, status: MonamiStatusMessage, address: String, now: i64)
        requires
            i64::MIN <= now + old(self).expiration_secs() <= i64::MAX,
        ensures
            final(self).registry() == after_report(
                old(self).registry(),
                status@,
                address@,
                now,
                old(self).expiration_secs(),
            ),
            final(self).secret_text() == old(self).secret_text(),
            final(self).expiration_secs() == old(self).expiration_secs(),
    {
        proof {
            use_type_invariant(&*self);
        }
        let expires_at = now + self.expiration;
        let found = self.find_node(&status.uuid);
        let ghost before = self.registry();
        let ghost mid = refreshed(before, status@, address@, expires_at);
        let ghost alive = |n: NodeView| n.expires_at > now;
        let mut pending: Vec<MonamiNode> = Vec::new();
        std::mem::swap(&mut pending, &mut self.nodes);
        let mut kept: Vec<MonamiNode> = Vec::new();
        let total = pending.len();
        let mut j: usize = 0;
        proof {
            reveal(Seq::filter);
        }
        while j < total
            invariant
                j <= total,
                total == before.len(),
                node_views(pending@) == before.skip(j as int),
                pending@.len() == total - j,
                node_views(kept@) == mid.take(j as int).filter(alive),
                alive == (|n: NodeView| n.expires_at > now),
                mid == refreshed(before, status@, address@, expires_at),
                mid.len() >= total,
                forall|k: int|
                    0 <= k < total ==> #[trigger] mid[k] == (if found == Some(k as usize) {
                        NodeView {
                            message: before[k].message,
                            address: before[k].address,
                            expires_at,
                        }
                    } else {
                        before[k]
                    }),
            decreases total - j,
        {
            let ghost rest = pending@;
            assert(node_views(rest)[0] == before.skip(j as int)[0]);
            let mut node = pending.remove(0);
            assert(node_views(pending@) =~= before.skip(j + 1)) by {
                assert forall|k: int| 0 <= k < pending@.len() implies #[trigger] node_views(pending@)[k]
                    == before.skip(j + 1)[k] by {
                    assert(node_views(rest)[k + 1] == before.skip(j as int)[k + 1]);
                }
            }
            let hit = match found {
                Some(i) => i == j,
                None => false,
            };
            if hit {
                node.expires_at = expires_at;
            }
            assert(mid.take(j + 1) =~= mid.take(j as int).push(mid[j as int]));
            proof {
                mid.take(j as int).lemma_filter_push(mid[j as int], alive);
            }
            if node.expires_at > now {
                kept.push(node);
            }
            j = j + 1;
        }
        if found.is_none() {
            proof {
                before.lemma_filter_push(mid[total as int], alive);
            }
            let node = MonamiNode { message: status, address, expires_at };
            if node.expires_at > now {
                kept.push(node);
            }
        } else {
            assert(mid.take(total as int) =~= mid);
        }
        assert(node_views(kept@) == mid.filter(alive));
        proof {
            assert(uuids_distinct(mid));
            lemma_filter_keeps_distinct(mid, alive);
        }
        self.nodes = kept;
    }

    /// Answers a message received at time `now` from `peer_address`:
    /// - an invalid message is rejected and changes nothing;
    /// - a status report is taken in (see `after_report`) and accepted;
    /// - a control request leaves the registry alone and is answered as
    ///   `control_answer` says: `get-details` gives every node, `list-nodes`
    ///   the nodes (with the tag given as parameter `tag`, if any), and any
    ///   other function is unsupported.
    pub fn handle_message(&mut self, message: MonamiMessage, peer_address: String, now: i64) -> (reply: ServerReply)
        requires
            message.message_type == MessageType::Status ==> message.message_status is Some && i64::MIN
                <= now + old(self).expiration_secs() <= i64::MAX,
            message.message_type == MessageType::Control ==> message.message_control is Some,
        ensures
            final(self).secret_text() == old(self).secret_text(),
            final(self).expiration_secs() == old(self).expiration_secs(),
            uuids_distinct(final(self).registry()),
            message.message_type == MessageType::Invalid ==> reply@ == ReplyView::Rejected
                && final(self).registry() == old(self).registry(),
            message.message_type == MessageType::Status ==> reply@ == ReplyView::Accepted
                && final(self).registry() == after_report(
                old(self).registry(),
                message.message_status->0@,
                peer_address@,
                now,
                old(self).expiration_secs(),
            ),
            final(self).registry() == registry_after(
                old(self).registry(),
                delivery_of(message, peer_address@, now),
                old(self).expiration_secs(),
            ),
            message.message_type == MessageType::Control ==> reply@ == control_answer(
                message.message_control->0@,
                old(self).registry(),
            ) && final(self).registry() == old(self).registry(),
    {
        let reply = match message.message_type {
            MessageType::Invalid => ServerReply::Rejected,
            MessageType::Status => {
                match message.message_status {
                    Some(status) => {
                        self.record_report(status, peer_address, now);
                    },
                    None => {},
                }
                ServerReply::Accepted
            },
            MessageType::Control => {
                match &message.message_control {
                    Some(control) => self.answer_control(control),
                    None => ServerReply::Rejected,
                }
            },
        };
        proof {
            use_type_invariant(&*self);
        }
        reply
    }

    /// The answer to a control request.
    fn answer_control(&self, control: &crate::shared::MonamiControlMessage) -> (reply: ServerReply)
        ensures
            reply@ == control_answer(control@, self.registry()),
    {
        if str_equal(control.function.as_str(), "get-details") {
            ServerReply::Details(select_nodes(&self.nodes, None))
        } else if str_equal(control.function.as_str(), "list-nodes") {
            let tag = control.parameter("tag");
            ServerReply::Listing(select_nodes(&self.nodes, tag))
        } else {
            ServerReply::Unsupported
        }
    }

    /// Position of the node with client id `uuid`.
    fn find_node(&self, uuid: &String) -> (index: Option<usize>)
        ensures
            index matches Some(i) ==> i < self.registry().len() && self.registry()[i as int].message.uuid
                == uuid@,
            index is None ==> !has_uuid(self.registry(), uuid@),
    {
        let n = self.nodes.len();
        let mut i: usize = 0;
        while i < n
            invariant
                i <= n,
                n == self.nodes@.len(),
                forall|j: int| 0 <= j < i ==> self.registry()[j].message.uuid != uuid@,
            decreases n - i,
        {
            if self.nodes[i].message.uuid == *uuid {
                return Some(i);
            }
            i = i + 1;
        }
        None
    }
}

} // verus!
