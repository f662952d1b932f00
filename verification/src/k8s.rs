//! Kubernetes pod and node state, as the `kubectl` command tells it.
//!
//! `kubectl` is asked for JSON, and what matters of it is picked out here.

use vstd::prelude::*;
use vstd::string::*;

use crate::command;
use crate::command::Ran;
use crate::json;
use crate::json::{get_at, get_items, get_text, get_text_or_empty, read_bytes, Json, JsonView};
use crate::numbers;
use crate::numbers::write_decimal;
use crate::text;
use crate::text::{last_piece, same, starts_with};

verus! {

/// One pod across all namespaces.
pub struct PodInfo {
    pub namespace: String,
    pub name: String,
    /// Pod phase: `Running`, `Pending`, `Succeeded`, `Failed`, `Unknown`.
    pub phase: String,
    /// Ready containers / total containers.
    pub ready: String,
    /// Cumulative container restarts.
    pub restarts: u32,
    /// Node the pod is scheduled on (empty while unscheduled).
    pub node: String,
    /// Reason for a non-running pod, if the pod has one set.
    pub reason: String,
}

/// What a [`PodInfo`] says.
#[verifier::ext_equal]
pub struct PodView {
    pub namespace: Seq<char>,
    pub name: Seq<char>,
    pub phase: Seq<char>,
    pub ready: Seq<char>,
    pub restarts: u32,
    pub node: Seq<char>,
    pub reason: Seq<char>,
}

impl View for PodInfo {
    type V = PodView;

    open spec fn view(&self) -> PodView {
        PodView {
            namespace: self.namespace@,
            name: self.name@,
            phase: self.phase@,
            ready: self.ready@,
            restarts: self.restarts,
            node: self.node@,
            reason: self.reason@,
        }
    }
}

impl DeepView for PodInfo {
    type V = PodView;

    open spec fn deep_view(&self) -> PodView {
        self@
    }
}

/// One Kubernetes node.
pub struct NodeInfo {
    pub name: String,
    /// Whether the node reports `Ready=True`.
    pub ready: bool,
    /// Roles, e.g. `control-plane`, `worker`.
    pub roles: Vec<String>,
    /// Kubelet/kube-proxy version string.
    pub version: String,
}

/// What a [`NodeInfo`] says.
#[verifier::ext_equal]
pub struct NodeView {
    pub name: Seq<char>,
    pub ready: bool,
    pub roles: Seq<Seq<char>>,
    pub version: Seq<char>,
}

impl View for NodeInfo {
    type V = NodeView;

    open spec fn view(&self) -> NodeView {
        NodeView {
            name: self.name@,
            ready: self.ready,
            roles: self.roles.deep_view(),
            version: self.version@,
        }
    }
}

impl DeepView for NodeInfo {
    type V = NodeView;

    open spec fn deep_view(&self) -> NodeView {
        self@
    }
}

// ---------------------------------------------------------------------------------------------
// Asking kubectl
// ---------------------------------------------------------------------------------------------

/// What `kubectl` has to say: the JSON it printed, or why there is none.
pub open spec fn answer(came: Ran) -> Result<JsonView, Seq<char>> {
    match came {
        Ok(output) => if output.success {
            match json::parsed_bytes(output.stdout@) {
                Ok(value) => Ok(value),
                Err(why) => Err("bad kubectl output: "@ + why),
            }
        } else {
            Err(command::complaint(output.stderr@))
        },
        Err(reason) => Err("kubectl unavailable: "@ + reason@),
    }
}

/// What `kubectl` has to say: the JSON it printed, or why there is none.
pub fn kubectl_answer(came: Ran) -> (out: Result<Json, String>)
    ensures
        out is Ok == answer(came) is Ok,
        out matches Ok(value) ==> value@ == answer(came)->Ok_0,
        out matches Err(why) ==> why@ == answer(came)->Err_0,
{
    match came {
        Ok(output) => if output.success {
            match read_bytes(&output.stdout) {
                Ok(value) => Ok(value),
                Err(why) => {
                    let mut said = "bad kubectl output: ".to_owned();
                    said.append(why.as_str());
                    Err(said)
                },
            }
        } else {
            Err(output.complaint())
        },
        Err(reason) => {
            let mut said = "kubectl unavailable: ".to_owned();
            said.append(reason.as_str());
            Err(said)
        },
    }
}

/// Arguments of `kubectl` that print all pods.
pub open spec fn pods_args() -> Seq<Seq<char>> {
    seq!["get"@, "pods"@, "-A"@, "-o"@, "json"@]
}

/// Arguments of `kubectl` that print all nodes.
pub open spec fn nodes_args() -> Seq<Seq<char>> {
    seq!["get"@, "nodes"@, "-o"@, "json"@]
}

/// Arguments of `kubectl` with which it asks the cluster for its version.
pub open spec fn version_args() -> Seq<Seq<char>> {
    seq!["version"@, "--client=false"@]
}

// ---------------------------------------------------------------------------------------------
// Pods
// ---------------------------------------------------------------------------------------------

/// The statuses of a pod's containers, where the pod's status has any.
pub open spec fn container_statuses(status: Option<JsonView>) -> Seq<JsonView> {
    match json::items_at(json::at(status, "containerStatuses"@)) {
        Some(items) => items,
        None => Seq::empty(),
    }
}

/// Whether a container is reported as ready.
pub open spec fn is_ready(container: JsonView) -> bool {
    json::at(Some(container), "ready"@) == Some(JsonView::Bool(true))
}

/// How often a container was restarted, where that is reported.
pub open spec fn restart_count(container: JsonView) -> nat {
    match json::at(Some(container), "restartCount"@) {
        Some(JsonView::Count(n)) => n as nat,
        _ => 0,
    }
}

/// How many of the containers are ready.
pub open spec fn ready_among(containers: Seq<JsonView>) -> nat {
    containers.filter(|c: JsonView| is_ready(c)).len()
}

/// How often the containers were restarted, all together.
pub open spec fn restarts_among(containers: Seq<JsonView>) -> nat
    decreases containers.len(),
{
    if containers.len() == 0 {
        0
    } else {
        restarts_among(containers.drop_last()) + restart_count(containers.last())
    }
}

/// The low 32 bits of a number.
pub open spec fn low_32(n: nat) -> nat {
    n % 0x1_0000_0000
}

fn keep_32(n: u64) -> (out: u32)
    ensures
        out as nat == low_32(n as nat),
{
    (n % 0x1_0000_0000) as u32
}

/// How many of a pod's containers are ready, how many there are, and how often they were
/// restarted, each in 32 bits.
pub fn container_counts(status: Option<&Json>) -> (out: (u32, u32, u32))
    ensures
        out.0 as nat == low_32(ready_among(container_statuses(json::seen(status)))),
        out.1 as nat == low_32(container_statuses(json::seen(status)).len()),
        out.2 as nat == low_32(restarts_among(container_statuses(json::seen(status)))),
{
    let items = match get_items(get_at(status, "containerStatuses")) {
        Some(items) => items,
        None => {
            assert(container_statuses(json::seen(status)) == Seq::<JsonView>::empty());
            reveal(Seq::filter);
            return (0, 0, 0);
        },
    };
    let ghost whole = container_statuses(json::seen(status));
    let total: u32 = keep_32(items.len() as u64);
    let mut ready: u64 = 0;
    let mut restarts: u32 = 0;
    let mut i: usize = 0;
    proof {
        reveal(Seq::filter);
        assert(whole.take(0).filter(|c: JsonView| is_ready(c)).len() == 0);
    }
    while i < items.len()
        invariant
            i <= items@.len(),
            whole.len() == items@.len(),
            forall|k: int| 0 <= k < items@.len() ==> #[trigger] items@[k]@ == whole[k],
            ready <= i,
            ready == ready_among(whole.take(i as int)),
            restarts as nat == low_32(restarts_among(whole.take(i as int))),
        decreases items@.len() - i,
    {
        let ghost now = whole.take(i + 1);
        proof {
            reveal(Seq::filter);
            assert(now.drop_last() == whole.take(i as int));
            assert(now.last() == items@[i as int]@);
        }
        if let Some(Json::Bool(true)) = get_at(Some(&items[i]), "ready") {
            ready += 1;
        }
        if let Some(Json::Count(n)) = get_at(Some(&items[i]), "restartCount") {
            let more: u32 = keep_32(*n);
            let sum: u64 = restarts as u64 + more as u64;
            restarts = keep_32(sum);
        }
        i += 1;
    }
    assert(whole.take(whole.len() as int) == whole);
    (keep_32(ready), total, restarts)
}

/// Why a pod does not run: what its status says, else what the last of its containers waits for.
pub open spec fn reason_of(status: Option<JsonView>) -> Seq<char> {
    match json::text_at(json::at(status, "reason"@)) {
        Some(reason) => reason,
        None => {
            let containers = container_statuses(status);
            if containers.len() == 0 {
                Seq::empty()
            } else {
                json::text_or_empty(
                    json::at(
                        json::at(json::at(Some(containers.last()), "state"@), "waiting"@),
                        "reason"@,
                    ),
                )
            }
        },
    }
}

fn read_reason(status: Option<&Json>) -> (out: String)
    ensures
        out@ == reason_of(json::seen(status)),
{
    if let Some(reason) = get_text(get_at(status, "reason")) {
        return reason;
    }
    match get_items(get_at(status, "containerStatuses")) {
        Some(items) => if items.len() > 0 {
            let last = Some(&items[items.len() - 1]);
            get_text_or_empty(get_at(get_at(get_at(last, "state"), "waiting"), "reason"))
        } else {
            String::new()
        },
        None => String::new(),
    }
}

/// The pod that an item of the list describes.
pub open spec fn pod_in(item: JsonView) -> PodView {
    let meta = json::at(Some(item), "metadata"@);
    let status = json::at(Some(item), "status"@);
    let containers = container_statuses(status);
    PodView {
        namespace: json::text_or_empty(json::at(meta, "namespace"@)),
        name: json::text_or_empty(json::at(meta, "name"@)),
        phase: json::text_or_empty(json::at(status, "phase"@)),
        ready: numbers::decimal(low_32(ready_among(containers))) + "/"@ + numbers::decimal(
            low_32(containers.len()),
        ),
        restarts: low_32(restarts_among(containers)) as u32,
        node: json::text_or_empty(json::at(json::at(Some(item), "spec"@), "nodeName"@)),
        reason: reason_of(status),
    }
}

/// Reads the pod that an item of the list describes.
pub fn read_pod(item: &Json) -> (out: PodInfo)
    ensures
        out@ == pod_in(item@),
{
    let meta = get_at(Some(item), "metadata");
    let status = get_at(Some(item), "status");
    let (ready_count, total, restarts) = container_counts(status);
    let mut ready = write_decimal(ready_count as u64);
    ready.append("/");
    let of = write_decimal(total as u64);
    ready.append(of.as_str());
    PodInfo {
        namespace: get_text_or_empty(get_at(meta, "namespace")),
        name: get_text_or_empty(get_at(meta, "name")),
        phase: get_text_or_empty(get_at(status, "phase")),
        ready,
        restarts,
        node: get_text_or_empty(get_at(get_at(Some(item), "spec"), "nodeName")),
        reason: read_reason(status),
    }
}

/// The items of a list; what is no list has none.
pub open spec fn items_in(list: JsonView) -> Seq<JsonView> {
    match json::items_at(json::at(Some(list), "items"@)) {
        Some(items) => items,
        None => Seq::empty(),
    }
}

/// The pods of a list, in its order.
pub open spec fn pods_in(list: JsonView) -> Seq<PodView> {
    items_in(list).map_values(|item: JsonView| pod_in(item))
}

/// Reads the pods of a list.
pub fn read_pods(list: &Json) -> (out: Vec<PodInfo>)
    ensures
        out.deep_view() == pods_in(list@),
{
    let mut out: Vec<PodInfo> = Vec::new();
    if let Some(items) = get_items(get_at(Some(list), "items")) {
        let ghost whole = items_in(list@);
        let mut i: usize = 0;
        while i < items.len()
            invariant
                i <= items@.len(),
                out@.len() == i,
                whole.len() == items@.len(),
                forall|k: int| 0 <= k < items@.len() ==> #[trigger] items@[k]@ == whole[k],
                forall|k: int| 0 <= k < i ==> (#[trigger] out@[k])@ == pod_in(whole[k]),
            decreases items@.len() - i,
        {
            let pod = read_pod(&items[i]);
            out.push(pod);
            i += 1;
        }
    }
    assert(out.deep_view() =~= pods_in(list@));
    out
}

/// The pods that a run of `kubectl` lists, or why there is no list.
pub open spec fn listed_pods(came: Ran) -> Result<Seq<PodView>, Seq<char>> {
    match answer(came) {
        Ok(list) => Ok(pods_in(list)),
        Err(why) => Err(why),
    }
}

/// Reads the pods that a run of `kubectl` lists.
pub fn pods_from(came: Ran) -> (out: Result<Vec<PodInfo>, String>)
    ensures
        command::outcome(out) == listed_pods(came),
{
    match kubectl_answer(came) {
        Ok(list) => Ok(read_pods(&list)),
        Err(why) => Err(why),
    }
}

/// Whether this is what a listing of the pods may come to.
pub open spec fn may_list_pods<F: Fn(Vec<String>) -> Ran>(
    run: F,
    found: Result<Seq<PodView>, Seq<char>>,
) -> bool {
    exists|came: Ran| #[trigger]
        command::may_run(run, pods_args(), came) && found == listed_pods(came)
}

/// All pods, newest name order as kubectl returns them.
pub fn pods<F: Fn(Vec<String>) -> Ran>(run: F) -> (out: Result<Vec<PodInfo>, String>)
    requires
        command::runs_anything(run),
    ensures
        may_list_pods(run, command::outcome(out)),
{
    let args = vec![
        "get".to_owned(),
        "pods".to_owned(),
        "-A".to_owned(),
        "-o".to_owned(),
        "json".to_owned(),
    ];
    assert(args.deep_view() =~= pods_args());
    let came = run(args);
    assert(command::may_run(run, pods_args(), came));
    pods_from(came)
}

// ---------------------------------------------------------------------------------------------
// Nodes
// ---------------------------------------------------------------------------------------------

/// The first of a node's conditions that is about its readiness.
pub open spec fn ready_condition(conditions: Seq<JsonView>) -> Option<JsonView>
    decreases conditions.len(),
{
    if conditions.len() == 0 {
        None
    } else if json::text_at(json::at(Some(conditions[0]), "type"@)) == Some("Ready"@) {
        Some(conditions[0])
    } else {
        ready_condition(conditions.drop_first())
    }
}

/// Whether a node reports that it is ready.
pub open spec fn node_ready(node: JsonView) -> bool {
    match json::items_at(json::at(json::at(Some(node), "status"@), "conditions"@)) {
        Some(conditions) => json::text_at(json::at(ready_condition(conditions), "status"@)) == Some(
            "True"@,
        ),
        None => false,
    }
}

fn is_text(value: Option<&Json>, wanted: &str) -> (yes: bool)
    ensures
        yes == (json::text_at(json::seen(value)) == Some(wanted@)),
{
    match value {
        Some(Json::Text(s)) => same(s.as_str(), wanted),
        _ => false,
    }
}

fn read_node_ready(node: &Json) -> (yes: bool)
    ensures
        yes == node_ready(node@),
{
    let items = match get_items(get_at(get_at(Some(node), "status"), "conditions")) {
        Some(items) => items,
        None => {
            return false;
        },
    };
    let ghost whole = json::items_at(
        json::at(json::at(Some(node@), "status"@), "conditions"@),
    )->0;
    let mut i: usize = 0;
    assert(whole.skip(0) == whole);
    while i < items.len()
        invariant
            i <= items@.len(),
            whole.len() == items@.len(),
            forall|k: int| 0 <= k < items@.len() ==> #[trigger] items@[k]@ == whole[k],
            ready_condition(whole) == ready_condition(whole.skip(i as int)),
            node_ready(node@) == (json::text_at(json::at(ready_condition(whole), "status"@))
                == Some("True"@)),
        decreases items@.len() - i,
    {
        assert(items@[i as int]@ == whole.skip(i as int)[0]);
        assert(whole.skip(i as int).drop_first() == whole.skip(i + 1));
        if is_text(get_at(Some(&items[i]), "type"), "Ready") {
            return is_text(get_at(Some(&items[i]), "status"), "True");
        }
        i += 1;
    }
    false
}

/// Whether a label names a role.
pub open spec fn is_role(label: Seq<char>) -> bool {
    text::begins_with(label, "node-role.kubernetes.io/"@)
}

/// The roles that labels name, in order: what follows the last slash of each such label.
pub open spec fn roles_in(labels: Seq<(Seq<char>, JsonView)>) -> Seq<Seq<char>>
    decreases labels.len(),
{
    if labels.len() == 0 {
        Seq::empty()
    } else {
        let before = roles_in(labels.drop_last());
        if is_role(labels.last().0) {
            before.push(text::pieces(labels.last().0, '/').last())
        } else {
            before
        }
    }
}

/// The roles of a node.
pub open spec fn node_roles(node: JsonView) -> Seq<Seq<char>> {
    match json::at(json::at(Some(node), "metadata"@), "labels"@) {
        Some(JsonView::Object(labels)) => roles_in(labels),
        _ => Seq::empty(),
    }
}

fn read_node_roles(node: &Json) -> (out: Vec<String>)
    ensures
        out.deep_view() == node_roles(node@),
{
    let mut out: Vec<String> = Vec::new();
    let labels = get_at(get_at(Some(node), "metadata"), "labels");
    if let Some(Json::Object(fields)) = labels {
        let ghost whole = labels->0@->Object_0;
        let mut i: usize = 0;
        assert(out.deep_view() == roles_in(whole.take(0)));
        while i < fields.len()
            invariant
                i <= fields@.len(),
                whole.len() == fields@.len(),
                forall|k: int| 0 <= k < fields@.len() ==> (#[trigger] fields@[k]).0@ == whole[k].0,
                out.deep_view() == roles_in(whole.take(i as int)),
            decreases fields@.len() - i,
        {
            assert(whole.take(i + 1).drop_last() == whole.take(i as int));
            assert(whole.take(i + 1).last().0 == fields@[i as int].0@);
            let ghost before = out.deep_view();
            if starts_with(fields[i].0.as_str(), "node-role.kubernetes.io/") {
                let role = last_piece(fields[i].0.as_str(), '/');
                out.push(role);
                assert(out.deep_view() == before.push(role@));
            }
            i += 1;
        }
        assert(whole.take(whole.len() as int) == whole);
    } else {
        assert(out.deep_view() == Seq::<Seq<char>>::empty());
    }
    out
}

/// The node that an item of the list describes.
pub open spec fn node_in(item: JsonView) -> NodeView {
    NodeView {
        name: json::text_or_empty(json::at(json::at(Some(item), "metadata"@), "name"@)),
        ready: node_ready(item),
        roles: node_roles(item),
        version: json::text_or_empty(
            json::at(
                json::at(json::at(Some(item), "status"@), "nodeInfo"@),
                "kubeletVersion"@,
            ),
        ),
    }
}

/// Reads the node that an item of the list describes.
pub fn read_node(item: &Json) -> (out: NodeInfo)
    ensures
        out@ == node_in(item@),
{
    let info = get_at(get_at(Some(item), "status"), "nodeInfo");
    NodeInfo {
        name: get_text_or_empty(get_at(get_at(Some(item), "metadata"), "name")),
        ready: read_node_ready(item),
        roles: read_node_roles(item),
        version: get_text_or_empty(get_at(info, "kubeletVersion")),
    }
}

/// The nodes of a list, in its order.
pub open spec fn nodes_in(list: JsonView) -> Seq<NodeView> {
    items_in(list).map_values(|item: JsonView| node_in(item))
}

/// Reads the nodes of a list.
pub fn read_nodes(list: &Json) -> (out: Vec<NodeInfo>)
    ensures
        out.deep_view() == nodes_in(list@),
{
    let mut out: Vec<NodeInfo> = Vec::new();
    if let Some(items) = get_items(get_at(Some(list), "items")) {
        let ghost whole = items_in(list@);
        let mut i: usize = 0;
        while i < items.len()
            invariant
                i <= items@.len(),
                out@.len() == i,
                whole.len() == items@.len(),
                forall|k: int| 0 <= k < items@.len() ==> #[trigger] items@[k]@ == whole[k],
                forall|k: int| 0 <= k < i ==> (#[trigger] out@[k])@ == node_in(whole[k]),
            decreases items@.len() - i,
        {
            let node = read_node(&items[i]);
            out.push(node);
            i += 1;
        }
    }
    assert(out.deep_view() =~= nodes_in(list@));
    out
}

/// The nodes that a run of `kubectl` lists, or why there is no list.
pub open spec fn listed_nodes(came: Ran) -> Result<Seq<NodeView>, Seq<char>> {
    match answer(came) {
        Ok(list) => Ok(nodes_in(list)),
        Err(why) => Err(why),
    }
}

/// Reads the nodes that a run of `kubectl` lists.
pub fn nodes_from(came: Ran) -> (out: Result<Vec<NodeInfo>, String>)
    ensures
        command::outcome(out) == listed_nodes(came),
{
    match kubectl_answer(came) {
        Ok(list) => Ok(read_nodes(&list)),
        Err(why) => Err(why),
    }
}

/// Whether this is what a listing of the nodes may come to.
pub open spec fn may_list_nodes<F: Fn(Vec<String>) -> Ran>(
    run: F,
    found: Result<Seq<NodeView>, Seq<char>>,
) -> bool {
    exists|came: Ran| #[trigger]
        command::may_run(run, nodes_args(), came) && found == listed_nodes(came)
}

/// All nodes.
pub fn nodes<F: Fn(Vec<String>) -> Ran>(run: F) -> (out: Result<Vec<NodeInfo>, String>)
    requires
        command::runs_anything(run),
    ensures
        may_list_nodes(run, command::outcome(out)),
{
    let args = vec!["get".to_owned(), "nodes".to_owned(), "-o".to_owned(), "json".to_owned()];
    assert(args.deep_view() =~= nodes_args());
    let came = run(args);
    assert(command::may_run(run, nodes_args(), came));
    nodes_from(came)
}

/// Whether this is what asking for the cluster may come to: it is there where it tells its
/// version, whatever that is.
pub open spec fn may_be_available<F: Fn(Vec<String>) -> Ran>(run: F, yes: bool) -> bool {
    exists|came: Ran| #[trigger]
        command::may_run(run, version_args(), came) && yes == match came {
            Ok(output) => output.success,
            Err(_) => false,
        }
}

/// Whether Kubernetes is reachable at all. False when kubectl is absent or has no cluster.
pub fn available<F: Fn(Vec<String>) -> Ran>(run: F) -> (yes: bool)
    requires
        command::runs_anything(run),
    ensures
        may_be_available(run, yes),
{
    let args = vec!["version".to_owned(), "--client=false".to_owned()];
    assert(args.deep_view() =~= version_args());
    let came = run(args);
    assert(command::may_run(run, version_args(), came));
    match came {
        Ok(output) => output.success,
        Err(_) => false,
    }
}

// ---------------------------------------------------------------------------------------------
// What reading the cluster keeps to
// ---------------------------------------------------------------------------------------------

/// What `kubectl` says counts only where it succeeded and printed JSON; whatever else comes of it
/// is told as it is.
pub proof fn kubectl_is_heard_only_where_it_succeeds(came: Ran, value: JsonView)
    ensures
        answer(came) == Ok::<JsonView, Seq<char>>(value) <==> came is Ok && came->Ok_0.success
            && json::parsed_bytes(came->Ok_0.stdout@) == Ok::<JsonView, Seq<char>>(value),
        came is Ok && came->Ok_0.success ==> (json::parsed_bytes(came->Ok_0.stdout@) matches Err(why)
            ==> answer(came) == Err::<JsonView, Seq<char>>("bad kubectl output: "@ + why)),
        came is Ok && !came->Ok_0.success ==> answer(came) == Err::<JsonView, Seq<char>>(
            text::trimmed(text::lossy_text(came->Ok_0.stderr@)),
        ),
        came matches Err(reason) ==> answer(came) == Err::<JsonView, Seq<char>>(
            "kubectl unavailable: "@ + reason@,
        ),
        answer(came) matches Err(why) ==> listed_pods(came) == Err::<Seq<PodView>, Seq<char>>(why)
            && listed_nodes(came) == Err::<Seq<NodeView>, Seq<char>>(why),
{
}

/// Each item of a list is one pod or one node, in order, and a list without items holds none.
pub proof fn each_item_is_one_pod_or_node(came: Ran, list: JsonView, items: Seq<JsonView>)
    requires
        answer(came) == Ok::<JsonView, Seq<char>>(list),
    ensures
        json::at(Some(list), "items"@) == Some(JsonView::Array(items)) ==> {
            &&& listed_pods(came) matches Ok(pods) && pods.len() == items.len() && forall|i: int|
                0 <= i < items.len() ==> #[trigger] pods[i] == pod_in(items[i])
            &&& listed_nodes(came) matches Ok(nodes) && nodes.len() == items.len() && forall|i: int|
                0 <= i < items.len() ==> #[trigger] nodes[i] == node_in(items[i])
        },
        !(json::at(Some(list), "items"@) is Some && json::at(Some(list), "items"@)->0 is Array) ==> {
            &&& listed_pods(came) matches Ok(pods) && pods.len() == 0
            &&& listed_nodes(came) matches Ok(nodes) && nodes.len() == 0
        },
{
}

/// A node is ready exactly where the first of its conditions of the type `Ready` has the status
/// `True`. One with another status is not, and neither is one without such a condition or without
/// conditions.
pub proof fn a_node_is_ready_exactly_where_it_says_true(item: JsonView, conditions: Seq<JsonView>, i: int)
    ensures
        json::at(json::at(Some(item), "status"@), "conditions"@) == Some(
            JsonView::Array(conditions),
        ) && 0 <= i < conditions.len() && json::at(Some(conditions[i]), "type"@) == Some(
            JsonView::Text("Ready"@),
        ) && (forall|k: int|
            0 <= k < i ==> json::at(Some(#[trigger] conditions[k]), "type"@) != Some(
                JsonView::Text("Ready"@),
            )) ==> (node_in(item).ready <==> json::at(Some(conditions[i]), "status"@) == Some(
            JsonView::Text("True"@),
        )),
        json::at(json::at(Some(item), "status"@), "conditions"@) == Some(
            JsonView::Array(conditions),
        ) && (forall|k: int|
            0 <= k < conditions.len() ==> json::at(Some(#[trigger] conditions[k]), "type"@) != Some(
                JsonView::Text("Ready"@),
            )) ==> !node_in(item).ready,
        json::at(json::at(Some(item), "status"@), "conditions"@) is None ==> !node_in(item).ready,
{
    lemma_first_ready(conditions, i);
}

proof fn lemma_first_ready(conditions: Seq<JsonView>, i: int)
    ensures
        0 <= i < conditions.len() && json::at(Some(conditions[i]), "type"@) == Some(
            JsonView::Text("Ready"@),
        ) && (forall|k: int|
            0 <= k < i ==> json::at(Some(#[trigger] conditions[k]), "type"@) != Some(
                JsonView::Text("Ready"@),
            )) ==> ready_condition(conditions) == Some(conditions[i]),
        (forall|k: int|
            0 <= k < conditions.len() ==> json::at(Some(#[trigger] conditions[k]), "type"@) != Some(
                JsonView::Text("Ready"@),
            )) ==> ready_condition(conditions) is None,
    decreases conditions.len(),
{
    if conditions.len() > 0 {
        let first = json::at(Some(conditions[0]), "type"@);
        if first == Some(JsonView::Text("Ready"@)) {
            assert(json::text_at(first) == Some("Ready"@));
        } else {
            assert(json::text_at(first) != Some("Ready"@)) by {
                if json::text_at(first) == Some("Ready"@) {
                    assert(first == Some(JsonView::Text("Ready"@)));
                }
            }
            let rest = conditions.drop_first();
            lemma_first_ready(rest, i - 1);
            assert forall|k: int| 0 <= k < rest.len() implies #[trigger] rest[k] == conditions[k
                + 1] by {}
            if 0 < i < conditions.len() {
                assert(rest[i - 1] == conditions[i]);
            }
        }
    }
}

/// A node is named, and has the version, that it says.
pub proof fn a_node_says_what_it_is(item: JsonView, s: Seq<char>)
    ensures
        json::at(json::at(Some(item), "metadata"@), "name"@) == Some(JsonView::Text(s)) ==> node_in(
            item,
        ).name == s,
        json::at(json::at(json::at(Some(item), "status"@), "nodeInfo"@), "kubeletVersion"@) == Some(
            JsonView::Text(s),
        ) ==> node_in(item).version == s,
        json::at(json::at(Some(item), "metadata"@), "name"@) is None ==> node_in(item).name.len()
            == 0,
        json::at(json::at(json::at(Some(item), "status"@), "nodeInfo"@), "kubeletVersion"@) is None
            ==> node_in(item).version.len() == 0,
{
}

/// The roles of a node are what its labels name behind `node-role.kubernetes.io/`, one for each
/// such label, in order. Other labels name none.
pub proof fn roles_are_named_by_labels(
    a: Seq<(Seq<char>, JsonView)>,
    b: Seq<(Seq<char>, JsonView)>,
    role: Seq<char>,
    label: Seq<char>,
    value: JsonView,
)
    ensures
        roles_in(a + b) == roles_in(a) + roles_in(b),
        !role.contains('/') ==> roles_in(seq![("node-role.kubernetes.io/"@ + role, value)]) == seq![
            role,
        ],
        !text::begins_with(label, "node-role.kubernetes.io/"@) ==> roles_in(seq![(label, value)])
            == Seq::<Seq<char>>::empty(),
        roles_in(seq![(label, value)]).len() <= 1,
    decreases b.len(),
{
    if b.len() > 0 {
        roles_are_named_by_labels(a, b.drop_last(), role, label, value);
        assert((a + b).drop_last() == a + b.drop_last());
        assert((a + b).last() == b.last());
        assert(roles_in(a + b) == roles_in(a) + roles_in(b));
    } else {
        assert(a + b == a);
        assert(roles_in(a) + roles_in(b) == roles_in(a));
        let full = "node-role.kubernetes.io/"@ + role;
        let one = seq![(full, value)];
        let other = seq![(label, value)];
        assert(one.drop_last() == Seq::<(Seq<char>, JsonView)>::empty());
        assert(other.drop_last() == Seq::<(Seq<char>, JsonView)>::empty());
        assert(roles_in(Seq::<(Seq<char>, JsonView)>::empty()) == Seq::<Seq<char>>::empty());
        assert(one.last().0 == full && other.last().0 == label);
        reveal_strlit("node-role.kubernetes.io/");
        assert(full.take("node-role.kubernetes.io/"@.len() as int) == "node-role.kubernetes.io/"@);
        if !role.contains('/') {
            let head = "node-role.kubernetes.io/"@.drop_last();
            assert("node-role.kubernetes.io/"@.last() == '/');
            assert(head.push('/') == "node-role.kubernetes.io/"@);
            text::splitting_goes_piece_by_piece(head, '/', role);
            text::splitting_goes_piece_by_piece(role, '/', role);
            assert(text::pieces(full, '/').last() == role);
            assert(roles_in(one) == seq![role]);
        }
    }
}

/// The labels of a node are those of its metadata.
pub proof fn a_nodes_roles_are_those_of_its_labels(item: JsonView, labels: Seq<(Seq<char>, JsonView)>)
    ensures
        json::at(json::at(Some(item), "metadata"@), "labels"@) == Some(JsonView::Object(labels))
            ==> node_in(item).roles == roles_in(labels),
        json::at(json::at(Some(item), "metadata"@), "labels"@) is None ==> node_in(item).roles.len()
            == 0,
{
}

/// A pod is named, placed and in the phase that it says.
pub proof fn a_pod_says_what_it_is(item: JsonView, s: Seq<char>)
    ensures
        json::at(json::at(Some(item), "metadata"@), "namespace"@) == Some(JsonView::Text(s))
            ==> pod_in(item).namespace == s,
        json::at(json::at(Some(item), "metadata"@), "name"@) == Some(JsonView::Text(s)) ==> pod_in(
            item,
        ).name == s,
        json::at(json::at(Some(item), "status"@), "phase"@) == Some(JsonView::Text(s)) ==> pod_in(
            item,
        ).phase == s,
        json::at(json::at(Some(item), "spec"@), "nodeName"@) == Some(JsonView::Text(s)) ==> pod_in(
            item,
        ).node == s,
        json::at(json::at(Some(item), "metadata"@), "name"@) is None ==> pod_in(item).name.len()
            == 0,
        json::at(json::at(Some(item), "metadata"@), "namespace"@) is None ==> pod_in(
            item,
        ).namespace.len() == 0,
        json::at(json::at(Some(item), "status"@), "phase"@) is None ==> pod_in(item).phase.len()
            == 0,
        json::at(json::at(Some(item), "spec"@), "nodeName"@) is None ==> pod_in(item).node.len()
            == 0,
{
}

/// The reason of a pod is the one that it gives itself, else the one that its last container waits
/// for, else none.
pub proof fn a_pods_own_reason_comes_first(item: JsonView, s: Seq<char>, containers: Seq<JsonView>)
    ensures
        json::at(json::at(Some(item), "status"@), "reason"@) == Some(JsonView::Text(s)) ==> pod_in(
            item,
        ).reason == s,
        json::at(json::at(Some(item), "status"@), "reason"@) is None && json::at(
            json::at(Some(item), "status"@),
            "containerStatuses"@,
        ) == Some(JsonView::Array(containers)) && containers.len() > 0 ==> {
            let waits = json::at(
                json::at(json::at(Some(containers[containers.len() - 1]), "state"@), "waiting"@),
                "reason"@,
            );
            &&& waits == Some(JsonView::Text(s)) ==> pod_in(item).reason == s
            &&& waits is None ==> pod_in(item).reason.len() == 0
        },
        json::at(json::at(Some(item), "status"@), "reason"@) is None && json::at(
            json::at(Some(item), "status"@),
            "containerStatuses"@,
        ) is None ==> pod_in(item).reason.len() == 0,
{
}

/// A container counts as ready exactly where its `ready` is true, and its restarts are those that
/// it counts.
pub proof fn containers_are_counted_one_by_one(a: Seq<JsonView>, b: Seq<JsonView>, container: JsonView, n: u64)
    ensures
        ready_among(a + b) == ready_among(a) + ready_among(b),
        ready_among(seq![container]) == if json::at(Some(container), "ready"@) == Some(
            JsonView::Bool(true),
        ) {
            1nat
        } else {
            0
        },
        ready_among(a) <= a.len(),
        restarts_among(a + b) == restarts_among(a) + restarts_among(b),
        json::at(Some(container), "restartCount"@) == Some(JsonView::Count(n)) ==> restarts_among(
            seq![container],
        ) == n,
        json::at(Some(container), "restartCount"@) is None ==> restarts_among(seq![container]) == 0,
{
    let ready = |c: JsonView| is_ready(c);
    a.lemma_filter_len(ready);
    Seq::filter_distributes_over_add(a, b, ready);
    reveal(Seq::filter);
    assert(seq![container].drop_last() == Seq::<JsonView>::empty());
    assert(Seq::<JsonView>::empty().filter(ready).len() == 0);
    assert(seq![container].last() == container);
    lemma_restarts_add_up(a, b);
    assert(restarts_among(seq![container].drop_last()) == 0);
}

proof fn lemma_restarts_add_up(a: Seq<JsonView>, b: Seq<JsonView>)
    ensures
        restarts_among(a + b) == restarts_among(a) + restarts_among(b),
    decreases b.len(),
{
    if b.len() == 0 {
        assert(a + b == a);
    } else {
        lemma_restarts_add_up(a, b.drop_last());
        assert((a + b).drop_last() == a + b.drop_last());
        assert((a + b).last() == b.last());
    }
}

/// What is shown of a pod's containers is how many of them are ready, of how many there are, and
/// how often they were restarted, all together.
pub proof fn a_pod_shows_its_containers(item: JsonView, containers: Seq<JsonView>)
    requires
        json::at(json::at(Some(item), "status"@), "containerStatuses"@) == Some(
            JsonView::Array(containers),
        ),
        containers.len() <= 0xffff_ffff,
    ensures
        pod_in(item).ready == numbers::decimal(ready_among(containers)) + "/"@ + numbers::decimal(
            containers.len(),
        ),
        restarts_among(containers) <= 0xffff_ffff ==> pod_in(item).restarts as nat
            == restarts_among(containers),
{
    containers_are_counted_one_by_one(containers, containers, JsonView::Other, 0);
}

/// A pod of which no containers are told shows none.
pub proof fn a_pod_without_containers_shows_none(item: JsonView)
    requires
        json::at(json::at(Some(item), "status"@), "containerStatuses"@) is None,
    ensures
        pod_in(item).ready == "0/0"@,
        pod_in(item).restarts == 0,
{
    reveal_strlit("0/0");
    reveal_strlit("/");
    let none = Seq::<JsonView>::empty();
    reveal(Seq::filter);
    assert(container_statuses(json::at(Some(item), "status"@)) == none);
    assert(ready_among(none) == 0);
    assert(restarts_among(none) == 0);
    numbers::a_number_is_written_digit_by_digit(0, 0, 10);
    assert(pod_in(item).ready == seq!['0'] + "/"@ + seq!['0']);
    assert(pod_in(item).ready == "0/0"@);
}

/// The cluster is there exactly where `kubectl` asked its server and succeeded, and `kubectl` is
/// asked for the pods of all namespaces and for all nodes.
pub proof fn kubectl_is_asked_for_everything<F: Fn(Vec<String>) -> Ran>(run: F, came: Ran)
    ensures
        pods_args() == seq!["get"@, "pods"@] + seq!["-A"@] + seq!["-o"@, "json"@],
        nodes_args() == seq!["get"@, "nodes"@] + seq!["-o"@, "json"@],
        version_args() == seq!["version"@] + seq!["--client=false"@],
        command::may_run(run, version_args(), came) ==> may_be_available(
            run,
            came is Ok && came->Ok_0.success,
        ),
        (forall|other: Ran| #[trigger]
            command::may_run(run, version_args(), other) ==> other is Err || !other->Ok_0.success)
            ==> !may_be_available(run, true),
{
    assert(pods_args() == seq!["get"@, "pods"@] + seq!["-A"@] + seq!["-o"@, "json"@]);
    assert(nodes_args() == seq!["get"@, "nodes"@] + seq!["-o"@, "json"@]);
    assert(version_args() == seq!["version"@] + seq!["--client=false"@]);
}

/// What is listed is what `kubectl` printed when it was asked for it: pods for pods, and nodes for
/// nodes.
pub proof fn a_listing_is_what_kubectl_printed<F: Fn(Vec<String>) -> Ran>(
    run: F,
    of_pods: Ran,
    of_nodes: Ran,
    pods: Result<Seq<PodView>, Seq<char>>,
    nodes: Result<Seq<NodeView>, Seq<char>>,
)
    requires
        may_list_pods(run, pods),
        may_list_nodes(run, nodes),
        forall|other: Ran| #[trigger]
            command::may_run(run, pods_args(), other) ==> other == of_pods,
        forall|other: Ran| #[trigger]
            command::may_run(run, nodes_args(), other) ==> other == of_nodes,
    ensures
        pods == listed_pods(of_pods),
        nodes == listed_nodes(of_nodes),
{
}

} // verus!
