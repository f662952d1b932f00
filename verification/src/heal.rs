//! The self-healing watcher.
//!
//! The node is not only a passive tool surface: it is the *trigger* half of the healing loop. On a
//! timer it samples the state the operator asked it to watch. When something that must be running
//! is not, it reports an incident by opening a session against an agent, which is told to diagnose
//! the root cause with this same node's tools, fix what it can, and report back.
//!
//! What was seen is turned into incidents here, what was already reported is remembered here, and
//! what a session is opened with is worded here. Sampling on time and talking to the server are
//! left to the caller.

use vstd::prelude::*;
use vstd::seq_lib::*;
use vstd::string::*;

use crate::command;
use crate::command::Ran;
use crate::config::Config;
use crate::docker;
use crate::docker::container_running;
use crate::k8s;
use crate::k8s::{nodes, pods, NodeInfo, NodeView, PodInfo, PodView};
use crate::monitor::{Incident, IncidentView};
use crate::system;
use crate::system::{process_running, ProcEntry};
use crate::text::same;

verus! {

/// How many seconds the server has to announce its API after a reconnect.
pub const CONSUME_WAIT_SECS: u64 = 5;

/// Where the live connection is kept for whoever needs the current one.
pub struct ConnSlot<C> {
    held: Option<C>,
}

impl<C> ConnSlot<C> {
    /// The connection that was put in last.
    pub closed spec fn holds(&self) -> Option<C> {
        self.held
    }

    /// An empty slot.
    pub fn new() -> (out: ConnSlot<C>)
        ensures
            out.holds() is None,
    {
        ConnSlot { held: None }
    }

    /// Puts a connection in, in place of the one before.
    pub fn put(&mut self, conn: C)
        ensures
            final(self).holds() == Some(conn),
    {
        self.held = Some(conn);
    }

    /// The connection that was put in last, if any was.
    pub fn get(&self) -> (out: Option<&C>)
        ensures
            out is Some == self.holds() is Some,
            out matches Some(conn) ==> self.holds() == Some(*conn),
    {
        match &self.held {
            Some(conn) => Some(conn),
            None => None,
        }
    }
}

// ---------------------------------------------------------------------------------------------
// What was seen
// ---------------------------------------------------------------------------------------------

/// What a look at the cluster found.
pub struct ClusterSighting {
    pub pods: Result<Vec<PodInfo>, String>,
    pub nodes: Result<Vec<NodeInfo>, String>,
}

/// What one full sample found: for each watched process and container whether it runs, and the
/// state of the cluster where that is watched.
pub struct Sighting {
    pub processes: Vec<bool>,
    pub containers: Vec<bool>,
    pub cluster: Option<ClusterSighting>,
}

/// What is reported of a process that does not run.
pub open spec fn process_down(name: Seq<char>) -> IncidentView {
    IncidentView {
        kind: "process"@,
        name,
        detail: "required process `"@ + name + "` is not running in this container"@,
    }
}

/// What is reported of a container that does not run.
pub open spec fn container_down(name: Seq<char>) -> IncidentView {
    IncidentView {
        kind: "container"@,
        name,
        detail: "required docker container `"@ + name + "` is not running"@,
    }
}

/// What is reported of those that do not run, in order.
pub open spec fn down_among(
    names: Seq<Seq<char>>,
    up: Seq<bool>,
    told: spec_fn(Seq<char>) -> IncidentView,
) -> Seq<IncidentView>
    decreases names.len(),
{
    if names.len() == 0 {
        Seq::empty()
    } else {
        let before = down_among(names.drop_last(), up, told);
        if up[names.len() - 1] {
            before
        } else {
            before.push(told(names.last()))
        }
    }
}

/// Whether a pod is in trouble. One that is meant to run but is `Pending`, `Failed` or `Unknown`
/// is; `Succeeded` is a job that finished and is not.
pub open spec fn pod_in_trouble(pod: PodView) -> bool {
    pod.phase != "Running"@ && pod.phase != "Succeeded"@ && pod.name.len() > 0
}

/// What is reported of a pod in trouble.
pub open spec fn pod_down(pod: PodView) -> IncidentView {
    IncidentView {
        kind: "k8s_pod"@,
        name: pod.namespace + "/"@ + pod.name,
        detail: "pod in phase "@ + pod.phase + " ("@ + pod.reason + ")"@,
    }
}

/// What is reported of the pods, in order.
pub open spec fn pods_down(pods: Seq<PodView>) -> Seq<IncidentView>
    decreases pods.len(),
{
    if pods.len() == 0 {
        Seq::empty()
    } else {
        let before = pods_down(pods.drop_last());
        if pod_in_trouble(pods.last()) {
            before.push(pod_down(pods.last()))
        } else {
            before
        }
    }
}

/// What is reported of a node that is not ready.
pub open spec fn node_down(node: NodeView) -> IncidentView {
    IncidentView { kind: "k8s_node"@, name: node.name, detail: "node is not Ready"@ }
}

/// What is reported of the nodes, in order.
pub open spec fn nodes_down(nodes: Seq<NodeView>) -> Seq<IncidentView>
    decreases nodes.len(),
{
    if nodes.len() == 0 {
        Seq::empty()
    } else {
        let before = nodes_down(nodes.drop_last());
        if nodes.last().ready {
            before
        } else {
            before.push(node_down(nodes.last()))
        }
    }
}

/// What is reported where the pods could not be read.
pub open spec fn cluster_unread(why: Seq<char>) -> IncidentView {
    IncidentView { kind: "k8s"@, name: "cluster"@, detail: "could not read pods: "@ + why }
}

/// What is reported of the cluster. Nodes that could not be read are not reported: where the
/// cluster is gone, the pods already say so.
pub open spec fn cluster_down(
    pods: Result<Seq<PodView>, Seq<char>>,
    nodes: Result<Seq<NodeView>, Seq<char>>,
) -> Seq<IncidentView> {
    (match pods {
        Ok(pods) => pods_down(pods),
        Err(why) => seq![cluster_unread(why)],
    }) + (match nodes {
        Ok(nodes) => nodes_down(nodes),
        Err(_) => Seq::empty(),
    })
}

/// Every watched target that was seen down, as an incident: processes first, then containers,
/// then the cluster.
pub open spec fn incidents(cfg: Config, seen: Sighting) -> Seq<IncidentView> {
    down_among(
        cfg.watch_processes.deep_view(),
        seen.processes@,
        |name: Seq<char>| process_down(name),
    ) + down_among(
        cfg.watch_containers.deep_view(),
        seen.containers@,
        |name: Seq<char>| container_down(name),
    ) + (match seen.cluster {
        Some(cluster) => cluster_down(
            command::outcome(cluster.pods),
            command::outcome(cluster.nodes),
        ),
        None => Seq::empty(),
    })
}

/// Each watched process or container that does not run is an incident, and nothing else is.
pub proof fn what_is_down_is_an_incident(
    names: Seq<Seq<char>>,
    up: Seq<bool>,
    told: spec_fn(Seq<char>) -> IncidentView,
)
    ensures
        forall|i: int|
            0 <= i < names.len() && !#[trigger] up[i] ==> down_among(names, up, told).contains(
                told(names[i]),
            ),
        forall|incident: IncidentView| #[trigger]
            down_among(names, up, told).contains(incident) ==> exists|i: int|
                0 <= i < names.len() && !#[trigger] up[i] && incident == told(names[i]),
    decreases names.len(),
{
    let all = down_among(names, up, told);
    if names.len() > 0 {
        let fewer = names.drop_last();
        let before = down_among(fewer, up, told);
        let last = names.len() - 1;
        what_is_down_is_an_incident(fewer, up, told);
        assert forall|i: int| 0 <= i < names.len() && !#[trigger] up[i] implies all.contains(
            told(names[i]),
        ) by {
            if i < last {
                assert(before.contains(told(fewer[i])));
                let k = choose|k: int| 0 <= k < before.len() && before[k] == told(fewer[i]);
                assert(all[k] == told(names[i]));
            } else {
                assert(all[before.len() as int] == told(names[i]));
            }
        }
        assert forall|incident: IncidentView| #[trigger] all.contains(incident) implies exists|
            i: int,
        |
            0 <= i < names.len() && !#[trigger] up[i] && incident == told(names[i]) by {
            let k = choose|k: int| 0 <= k < all.len() && all[k] == incident;
            if k < before.len() {
                assert(before[k] == incident);
                assert(before.contains(incident));
                let i = choose|i: int|
                    0 <= i < fewer.len() && !#[trigger] up[i] && incident == told(fewer[i]);
                assert(!up[i] && incident == told(names[i]));
            } else {
                assert(!up[last] && incident == told(names[last]));
            }
        }
    }
}

/// Each pod that is neither running nor done is an incident, and nothing else is. A pod without a
/// name cannot be reported.
pub proof fn a_pod_in_trouble_is_an_incident(pods: Seq<PodView>)
    ensures
        forall|i: int|
            0 <= i < pods.len() && pod_in_trouble(#[trigger] pods[i]) ==> pods_down(pods).contains(
                pod_down(pods[i]),
            ),
        forall|incident: IncidentView| #[trigger]
            pods_down(pods).contains(incident) ==> exists|i: int|
                0 <= i < pods.len() && pod_in_trouble(#[trigger] pods[i]) && incident == pod_down(
                    pods[i],
                ),
    decreases pods.len(),
{
    let all = pods_down(pods);
    if pods.len() > 0 {
        let fewer = pods.drop_last();
        let before = pods_down(fewer);
        let last = pods.len() - 1;
        a_pod_in_trouble_is_an_incident(fewer);
        assert forall|i: int| 0 <= i < pods.len() && pod_in_trouble(
            #[trigger] pods[i],
        ) implies all.contains(pod_down(pods[i])) by {
            if i < last {
                assert(fewer[i] == pods[i]);
                assert(before.contains(pod_down(fewer[i])));
                let k = choose|k: int| 0 <= k < before.len() && before[k] == pod_down(fewer[i]);
                assert(all[k] == pod_down(pods[i]));
            } else {
                assert(all[before.len() as int] == pod_down(pods[i]));
            }
        }
        assert forall|incident: IncidentView| #[trigger] all.contains(incident) implies exists|
            i: int,
        |
            0 <= i < pods.len() && pod_in_trouble(#[trigger] pods[i]) && incident == pod_down(
                pods[i],
            ) by {
            let k = choose|k: int| 0 <= k < all.len() && all[k] == incident;
            if k < before.len() {
                assert(before[k] == incident);
                assert(before.contains(incident));
                let i = choose|i: int|
                    0 <= i < fewer.len() && pod_in_trouble(#[trigger] fewer[i]) && incident
                        == pod_down(fewer[i]);
                assert(pod_in_trouble(pods[i]) && incident == pod_down(pods[i]));
            } else {
                assert(pod_in_trouble(pods[last]) && incident == pod_down(pods[last]));
            }
        }
    }
}

/// Each node that is not ready is an incident, and nothing else is.
pub proof fn a_node_that_is_not_ready_is_an_incident(nodes: Seq<NodeView>)
    ensures
        forall|i: int|
            0 <= i < nodes.len() && !(#[trigger] nodes[i]).ready ==> nodes_down(nodes).contains(
                node_down(nodes[i]),
            ),
        forall|incident: IncidentView| #[trigger]
            nodes_down(nodes).contains(incident) ==> exists|i: int|
                0 <= i < nodes.len() && !(#[trigger] nodes[i]).ready && incident == node_down(
                    nodes[i],
                ),
    decreases nodes.len(),
{
    let all = nodes_down(nodes);
    if nodes.len() > 0 {
        let fewer = nodes.drop_last();
        let before = nodes_down(fewer);
        let last = nodes.len() - 1;
        a_node_that_is_not_ready_is_an_incident(fewer);
        assert forall|i: int| 0 <= i < nodes.len() && !(
        #[trigger] nodes[i]).ready implies all.contains(node_down(nodes[i])) by {
            if i < last {
                assert(fewer[i] == nodes[i]);
                assert(before.contains(node_down(fewer[i])));
                let k = choose|k: int| 0 <= k < before.len() && before[k] == node_down(fewer[i]);
                assert(all[k] == node_down(nodes[i]));
            } else {
                assert(all[before.len() as int] == node_down(nodes[i]));
            }
        }
        assert forall|incident: IncidentView| #[trigger] all.contains(incident) implies exists|
            i: int,
        |
            0 <= i < nodes.len() && !(#[trigger] nodes[i]).ready && incident == node_down(
                nodes[i],
            ) by {
            let k = choose|k: int| 0 <= k < all.len() && all[k] == incident;
            if k < before.len() {
                assert(before[k] == incident);
                assert(before.contains(incident));
                let i = choose|i: int|
                    0 <= i < fewer.len() && !(#[trigger] fewer[i]).ready && incident == node_down(
                        fewer[i],
                    );
                assert(!nodes[i].ready && incident == node_down(nodes[i]));
            } else {
                assert(!nodes[last].ready && incident == node_down(nodes[last]));
            }
        }
    }
}

fn tell_process(name: &str) -> (out: Incident)
    ensures
        out@ == process_down(name@),
{
    let mut detail = "required process `".to_owned();
    detail.append(name);
    detail.append("` is not running in this container");
    Incident { kind: "process".to_owned(), name: name.to_owned(), detail }
}

fn tell_container(name: &str) -> (out: Incident)
    ensures
        out@ == container_down(name@),
{
    let mut detail = "required docker container `".to_owned();
    detail.append(name);
    detail.append("` is not running");
    Incident { kind: "container".to_owned(), name: name.to_owned(), detail }
}

fn tell_pod(pod: &PodInfo) -> (out: Incident)
    ensures
        out@ == pod_down(pod@),
{
    let mut name = pod.namespace.clone();
    name.append("/");
    name.append(pod.name.as_str());
    let mut detail = "pod in phase ".to_owned();
    detail.append(pod.phase.as_str());
    detail.append(" (");
    detail.append(pod.reason.as_str());
    detail.append(")");
    Incident { kind: "k8s_pod".to_owned(), name, detail }
}

fn tell_node(node: &NodeInfo) -> (out: Incident)
    ensures
        out@ == node_down(node@),
{
    Incident {
        kind: "k8s_node".to_owned(),
        name: node.name.clone(),
        detail: "node is not Ready".to_owned(),
    }
}

fn tell_cluster(why: &str) -> (out: Incident)
    ensures
        out@ == cluster_unread(why@),
{
    let mut detail = "could not read pods: ".to_owned();
    detail.append(why);
    Incident { kind: "k8s".to_owned(), name: "cluster".to_owned(), detail }
}

fn tell_processes(names: &Vec<String>, up: &Vec<bool>) -> (out: Vec<Incident>)
    requires
        names@.len() == up@.len(),
    ensures
        out.deep_view() == down_among(
            names.deep_view(),
            up@,
            |name: Seq<char>| process_down(name),
        ),
{
    let ghost told = |name: Seq<char>| process_down(name);
    let mut out: Vec<Incident> = Vec::new();
    let mut i: usize = 0;
    assert(out.deep_view() == down_among(names.deep_view().take(0), up@, told));
    while i < names.len()
        invariant
            i <= names@.len() == up@.len(),
            told == (|name: Seq<char>| process_down(name)),
            out.deep_view() == down_among(names.deep_view().take(i as int), up@, told),
        decreases names@.len() - i,
    {
        let ghost now = names.deep_view().take(i + 1);
        assert(now.drop_last() == names.deep_view().take(i as int));
        assert(now.last() == names@[i as int]@);
        let ghost before = out.deep_view();
        if !up[i] {
            let incident = tell_process(names[i].as_str());
            out.push(incident);
            assert(out.deep_view() == before.push(incident@));
        }
        i += 1;
    }
    assert(names.deep_view().take(names@.len() as int) == names.deep_view());
    out
}

fn tell_containers(names: &Vec<String>, up: &Vec<bool>) -> (out: Vec<Incident>)
    requires
        names@.len() == up@.len(),
    ensures
        out.deep_view() == down_among(
            names.deep_view(),
            up@,
            |name: Seq<char>| container_down(name),
        ),
{
    let ghost told = |name: Seq<char>| container_down(name);
    let mut out: Vec<Incident> = Vec::new();
    let mut i: usize = 0;
    assert(out.deep_view() == down_among(names.deep_view().take(0), up@, told));
    while i < names.len()
        invariant
            i <= names@.len() == up@.len(),
            told == (|name: Seq<char>| container_down(name)),
            out.deep_view() == down_among(names.deep_view().take(i as int), up@, told),
        decreases names@.len() - i,
    {
        let ghost now = names.deep_view().take(i + 1);
        assert(now.drop_last() == names.deep_view().take(i as int));
        assert(now.last() == names@[i as int]@);
        let ghost before = out.deep_view();
        if !up[i] {
            let incident = tell_container(names[i].as_str());
            out.push(incident);
            assert(out.deep_view() == before.push(incident@));
        }
        i += 1;
    }
    assert(names.deep_view().take(names@.len() as int) == names.deep_view());
    out
}

fn tell_pods(pods: &Vec<PodInfo>) -> (out: Vec<Incident>)
    ensures
        out.deep_view() == pods_down(pods.deep_view()),
{
    let mut out: Vec<Incident> = Vec::new();
    let mut i: usize = 0;
    assert(out.deep_view() == pods_down(pods.deep_view().take(0)));
    while i < pods.len()
        invariant
            i <= pods@.len(),
            out.deep_view() == pods_down(pods.deep_view().take(i as int)),
        decreases pods@.len() - i,
    {
        let ghost now = pods.deep_view().take(i + 1);
        assert(now.drop_last() == pods.deep_view().take(i as int));
        assert(now.last() == pods@[i as int]@);
        let ghost before = out.deep_view();
        let pod = &pods[i];
        if !same(pod.phase.as_str(), "Running") && !same(pod.phase.as_str(), "Succeeded")
            && !pod.name.as_str().is_empty() {
            let incident = tell_pod(pod);
            out.push(incident);
            assert(out.deep_view() == before.push(incident@));
        }
        i += 1;
    }
    assert(pods.deep_view().take(pods@.len() as int) == pods.deep_view());
    out
}

fn tell_nodes(nodes: &Vec<NodeInfo>) -> (out: Vec<Incident>)
    ensures
        out.deep_view() == nodes_down(nodes.deep_view()),
{
    let mut out: Vec<Incident> = Vec::new();
    let mut i: usize = 0;
    assert(out.deep_view() == nodes_down(nodes.deep_view().take(0)));
    while i < nodes.len()
        invariant
            i <= nodes@.len(),
            out.deep_view() == nodes_down(nodes.deep_view().take(i as int)),
        decreases nodes@.len() - i,
    {
        let ghost now = nodes.deep_view().take(i + 1);
        assert(now.drop_last() == nodes.deep_view().take(i as int));
        assert(now.last() == nodes@[i as int]@);
        let ghost before = out.deep_view();
        if !nodes[i].ready {
            let incident = tell_node(&nodes[i]);
            out.push(incident);
            assert(out.deep_view() == before.push(incident@));
        }
        i += 1;
    }
    assert(nodes.deep_view().take(nodes@.len() as int) == nodes.deep_view());
    out
}

/// Puts what is told behind what was told before.
fn tell_also(told: &mut Vec<Incident>, more: Vec<Incident>)
    ensures
        final(told).deep_view() == old(told).deep_view() + more.deep_view(),
{
    let ghost before = told.deep_view();
    let mut more = more;
    let ghost added = more.deep_view();
    told.append(&mut more);
    assert(told.deep_view() =~= before + added);
}

/// Every watched target that was seen down, as an `Incident`.
pub fn incidents_seen(cfg: &Config, seen: &Sighting) -> (out: Vec<Incident>)
    requires
        seen.processes@.len() == cfg.watch_processes@.len(),
        seen.containers@.len() == cfg.watch_containers@.len(),
    ensures
        out.deep_view() == incidents(*cfg, *seen),
{
    let mut out = tell_processes(&cfg.watch_processes, &seen.processes);
    let containers = tell_containers(&cfg.watch_containers, &seen.containers);
    tell_also(&mut out, containers);
    let ghost so_far = out.deep_view();
    match &seen.cluster {
        Some(cluster) => {
            let pods = match &cluster.pods {
                Ok(pods) => tell_pods(pods),
                Err(why) => {
                    let unread = vec![tell_cluster(why.as_str())];
                    assert(unread.deep_view() =~= seq![cluster_unread(why@)]);
                    unread
                },
            };
            tell_also(&mut out, pods);
            if let Ok(nodes) = &cluster.nodes {
                let nodes = tell_nodes(nodes);
                tell_also(&mut out, nodes);
            }
            assert(out.deep_view() =~= so_far + cluster_down(
                command::outcome(cluster.pods),
                command::outcome(cluster.nodes),
            ));
        },
        None => {
            assert(so_far =~= incidents(*cfg, *seen));
        },
    }
    out
}

/// Whether this is what a look around may find, given the entries of `/proc` and what runs
/// `docker` and `kubectl`.
pub open spec fn may_see<F: Fn(Vec<String>) -> Ran, G: Fn(Vec<String>) -> Ran>(
    cfg: Config,
    entries: Seq<ProcEntry>,
    docker: F,
    kubectl: G,
    seen: Sighting,
) -> bool {
    &&& seen.processes@.len() == cfg.watch_processes@.len()
    &&& seen.containers@.len() == cfg.watch_containers@.len()
    &&& forall|i: int|
        0 <= i < seen.processes@.len() ==> #[trigger] seen.processes@[i] == system::any_named(
            system::processes(entries),
            cfg.watch_processes@[i]@,
        )
    &&& forall|i: int|
        0 <= i < seen.containers@.len() ==> docker::may_be_running(
            docker,
            cfg.watch_containers@[i]@,
            #[trigger] seen.containers@[i],
        )
    &&& seen.cluster is Some == cfg.watch_k8s
    &&& seen.cluster matches Some(cluster) ==> k8s::may_list_pods(
        kubectl,
        command::outcome(cluster.pods),
    ) && k8s::may_list_nodes(kubectl, command::outcome(cluster.nodes))
}

/// Looks at everything that is watched.
pub fn look<F: Fn(Vec<String>) -> Ran + Copy, G: Fn(Vec<String>) -> Ran + Copy>(
    cfg: &Config,
    entries: &Vec<ProcEntry>,
    docker: F,
    kubectl: G,
) -> (seen: Sighting)
    requires
        command::runs_anything(docker),
        command::runs_anything(kubectl),
    ensures
        may_see(*cfg, entries@, docker, kubectl, seen),
{
    let mut processes: Vec<bool> = Vec::new();
    let mut i: usize = 0;
    while i < cfg.watch_processes.len()
        invariant
            i <= cfg.watch_processes@.len(),
            processes@.len() == i,
            forall|k: int|
                0 <= k < i ==> #[trigger] processes@[k] == system::any_named(
                    system::processes(entries@),
                    cfg.watch_processes@[k]@,
                ),
        decreases cfg.watch_processes@.len() - i,
    {
        processes.push(process_running(cfg.watch_processes[i].as_str(), entries));
        i += 1;
    }
    let mut containers: Vec<bool> = Vec::new();
    let mut i: usize = 0;
    while i < cfg.watch_containers.len()
        invariant
            i <= cfg.watch_containers@.len(),
            containers@.len() == i,
            command::runs_anything(docker),
            forall|k: int|
                0 <= k < i ==> docker::may_be_running(
                    docker,
                    cfg.watch_containers@[k]@,
                    #[trigger] containers@[k],
                ),
        decreases cfg.watch_containers@.len() - i,
    {
        containers.push(container_running(cfg.watch_containers[i].as_str(), docker));
        i += 1;
    }
    let cluster = if cfg.watch_k8s {
        Some(ClusterSighting { pods: pods(kubectl), nodes: nodes(kubectl) })
    } else {
        None
    };
    Sighting { processes, containers, cluster }
}

// ---------------------------------------------------------------------------------------------
// What was already reported
// ---------------------------------------------------------------------------------------------

/// What an incident is remembered by.
pub open spec fn key_of(incident: IncidentView) -> Seq<char> {
    incident.kind + ":"@ + incident.name
}

/// What the incidents are remembered by, all together.
pub open spec fn keys_of(incidents: Seq<IncidentView>) -> Set<Seq<char>> {
    incidents.map_values(|incident: IncidentView| key_of(incident)).to_set()
}

/// The incidents that are not known yet, in order, each once.
pub open spec fn unknown(incidents: Seq<IncidentView>, known: Set<Seq<char>>) -> Seq<IncidentView>
    decreases incidents.len(),
{
    if incidents.len() == 0 {
        Seq::empty()
    } else {
        let before = unknown(incidents.drop_last(), known);
        let key = key_of(incidents.last());
        if known.contains(key) || keys_of(incidents.drop_last()).contains(key) {
            before
        } else {
            before.push(incidents.last())
        }
    }
}

/// What is reported at a tick: what is newly down, where there is a connection to report it over.
pub open spec fn due(
    known: Set<Seq<char>>,
    incidents: Seq<IncidentView>,
    connected: bool,
) -> Seq<IncidentView> {
    if connected {
        unknown(incidents, known)
    } else {
        Seq::empty()
    }
}

/// What is known after a tick: what is down and was reported before or just now. What is up again
/// is forgotten, and what could not be reported is not remembered as if it had been.
pub open spec fn known_after(
    known: Set<Seq<char>>,
    incidents: Seq<IncidentView>,
    connected: bool,
) -> Set<Seq<char>> {
    if connected {
        keys_of(incidents)
    } else {
        known.intersect(keys_of(incidents))
    }
}

proof fn lemma_keys_grow(incidents: Seq<IncidentView>, i: int)
    requires
        0 <= i < incidents.len(),
    ensures
        keys_of(incidents.take(i + 1)) == keys_of(incidents.take(i)).insert(key_of(incidents[i])),
{
    let before = incidents.take(i).map_values(|x: IncidentView| key_of(x));
    let after = incidents.take(i + 1).map_values(|x: IncidentView| key_of(x));
    assert(after =~= before.push(key_of(incidents[i])));
    assert(after[i] == key_of(incidents[i]));
    assert forall|k: Seq<char>| after.to_set().contains(k) == before.to_set().insert(
        key_of(incidents[i]),
    ).contains(k) by {
        if before.contains(k) {
            let j = choose|j: int| 0 <= j < before.len() && before[j] == k;
            assert(after[j] == k);
        }
        if after.contains(k) {
            let j = choose|j: int| 0 <= j < after.len() && after[j] == k;
            if j < i {
                assert(before[j] == k);
            }
        }
    }
    assert(after.to_set() =~= before.to_set().insert(key_of(incidents[i])));
}

/// While a target stays down it is reported once: a tick that finds it known does not report it
/// again.
pub proof fn what_stays_down_is_reported_once(
    known: Set<Seq<char>>,
    first: Seq<IncidentView>,
    second: Seq<IncidentView>,
    key: Seq<char>,
)
    requires
        keys_of(first).contains(key),
    ensures
        !keys_of(due(known_after(known, first, true), second, true)).contains(key),
{
    lemma_unknown_are_not_known(second, keys_of(first), key);
}

proof fn lemma_unknown_are_not_known(
    incidents: Seq<IncidentView>,
    known: Set<Seq<char>>,
    key: Seq<char>,
)
    requires
        known.contains(key),
    ensures
        !keys_of(unknown(incidents, known)).contains(key),
    decreases incidents.len(),
{
    let told = unknown(incidents, known);
    if incidents.len() > 0 {
        lemma_unknown_are_not_known(incidents.drop_last(), known, key);
        let before = unknown(incidents.drop_last(), known);
        if told != before {
            assert(told.take(told.len() - 1) == before);
            assert(told.take(told.len() as int) == told);
            lemma_keys_grow(told, told.len() - 1);
        }
    } else {
        assert(told.map_values(|x: IncidentView| key_of(x)).len() == 0);
    }
}

proof fn lemma_unknown_are_told(
    incidents: Seq<IncidentView>,
    known: Set<Seq<char>>,
    key: Seq<char>,
)
    requires
        !known.contains(key),
        keys_of(incidents).contains(key),
    ensures
        keys_of(unknown(incidents, known)).contains(key),
    decreases incidents.len(),
{
    if incidents.len() == 0 {
        assert(incidents.map_values(|x: IncidentView| key_of(x)).len() == 0);
    } else {
        let told = unknown(incidents, known);
        let before = unknown(incidents.drop_last(), known);
        assert(incidents.take(incidents.len() - 1) == incidents.drop_last());
        assert(incidents.take(incidents.len() as int) == incidents);
        lemma_keys_grow(incidents, incidents.len() - 1);
        if keys_of(incidents.drop_last()).contains(key) {
            lemma_unknown_are_told(incidents.drop_last(), known, key);
        }
        if told != before {
            assert(told.take(told.len() - 1) == before);
            assert(told.take(told.len() as int) == told);
            lemma_keys_grow(told, told.len() - 1);
        } else if !keys_of(incidents.drop_last()).contains(key) {
            assert(told.len() == before.len());
            assert(key == key_of(incidents.last()));
            assert(told == before.push(incidents.last()));
        }
    }
}

/// A target that comes back and goes down again is reported again.
pub proof fn what_came_back_is_reported_again(
    known: Set<Seq<char>>,
    between: Seq<IncidentView>,
    connected: bool,
    later: Seq<IncidentView>,
    key: Seq<char>,
)
    requires
        !keys_of(between).contains(key),
        keys_of(later).contains(key),
    ensures
        keys_of(due(known_after(known, between, connected), later, true)).contains(key),
{
    lemma_unknown_are_told(later, known_after(known, between, connected), key);
}

/// A target found down while there was no connection is reported as soon as there is one, if it
/// was not reported before.
pub proof fn what_could_not_be_reported_is_not_forgotten(
    known: Set<Seq<char>>,
    first: Seq<IncidentView>,
    later: Seq<IncidentView>,
    key: Seq<char>,
)
    requires
        !known.contains(key),
        keys_of(first).contains(key),
        keys_of(later).contains(key),
    ensures
        keys_of(due(known_after(known, first, false), later, true)).contains(key),
{
    lemma_unknown_are_told(later, known_after(known, first, false), key);
}

/// What is remembered never outgrows what is down.
pub proof fn what_is_remembered_is_bounded(
    known: Set<Seq<char>>,
    incidents: Seq<IncidentView>,
    connected: bool,
)
    ensures
        known_after(known, incidents, connected).subset_of(keys_of(incidents)),
        known_after(known, incidents, connected).finite(),
        known_after(known, incidents, connected).len() <= incidents.len(),
{
    let keys = incidents.map_values(|x: IncidentView| key_of(x));
    seq_to_set_is_finite(keys);
    keys.lemma_cardinality_of_set();
    vstd::set_lib::lemma_len_subset(known_after(known, incidents, connected), keys.to_set());
}

impl Incident {
    /// What the incident is remembered by.
    pub fn key(&self) -> (out: String)
        ensures
            out@ == key_of(self@),
    {
        let mut key = self.kind.clone();
        key.append(":");
        key.append(self.name.as_str());
        key
    }

    /// The same incident once more.
    pub fn copy(&self) -> (out: Incident)
        ensures
            out@ == self@,
    {
        Incident { kind: self.kind.clone(), name: self.name.clone(), detail: self.detail.clone() }
    }
}

fn is_among(keys: &Vec<String>, key: &str) -> (yes: bool)
    ensures
        yes == keys.deep_view().to_set().contains(key@),
{
    let mut i: usize = 0;
    while i < keys.len()
        invariant
            i <= keys@.len(),
            forall|k: int| 0 <= k < i ==> (#[trigger] keys@[k])@ != key@,
        decreases keys@.len() - i,
    {
        if same(keys[i].as_str(), key) {
            assert(keys.deep_view()[i as int] == key@);
            return true;
        }
        i += 1;
    }
    proof {
        if keys.deep_view().contains(key@) {
            let j = choose|j: int| 0 <= j < keys.deep_view().len() && keys.deep_view()[j] == key@;
            assert(keys@[j]@ == key@);
        }
    }
    false
}

/// Names already reported, so a process or container that keeps failing does not spam a session
/// every tick. Cleared when the thing comes back (the watcher re-arms), and bounded so a watched
/// list that keeps failing does not grow forever.
pub struct SelfHealer {
    cfg: Config,
    reported: Vec<String>,
}

proof fn lemma_pushed_key(keys: Seq<Seq<char>>, key: Seq<char>)
    ensures
        keys.push(key).to_set() == keys.to_set().insert(key),
        keys.no_duplicates() && !keys.to_set().contains(key) ==> keys.push(key).no_duplicates(),
{
    let after = keys.push(key);
    assert forall|k: Seq<char>| after.to_set().contains(k) == keys.to_set().insert(
        key,
    ).contains(k) by {
        if keys.contains(k) {
            let j = choose|j: int| 0 <= j < keys.len() && keys[j] == k;
            assert(after[j] == k);
        }
        if k == key {
            assert(after[keys.len() as int] == k);
        }
        if after.contains(k) {
            let j = choose|j: int| 0 <= j < after.len() && after[j] == k;
            if j < keys.len() {
                assert(keys[j] == k);
            }
        }
    }
    assert(after.to_set() =~= keys.to_set().insert(key));
    if keys.no_duplicates() && !keys.to_set().contains(key) {
        assert forall|a: int, b: int| 0 <= a < after.len() && 0 <= b < after.len() && a
            != b implies after[a] != after[b] by {
            if a == keys.len() {
                assert(keys.contains(keys[b]));
            } else if b == keys.len() {
                assert(keys.contains(keys[a]));
            }
        }
    }
}

impl SelfHealer {
    #[verifier::type_invariant]
    spec fn each_key_once(self) -> bool {
        self.reported.deep_view().no_duplicates()
    }

    /// What is watched.
    pub closed spec fn settings(&self) -> Config {
        self.cfg
    }

    /// What was reported and is still down.
    pub closed spec fn known(&self) -> Set<Seq<char>> {
        self.reported.deep_view().to_set()
    }

    /// A watcher that has not reported anything yet.
    pub fn new(cfg: Config) -> (out: SelfHealer)
        ensures
            out.settings() == cfg,
            out.known() == Set::<Seq<char>>::empty(),
    {
        let out = SelfHealer { cfg, reported: Vec::new() };
        assert(out.known() =~= Set::<Seq<char>>::empty());
        out
    }

    /// What is watched.
    pub fn config(&self) -> (out: &Config)
        ensures
            *out == self.settings(),
    {
        &self.cfg
    }

    /// One full sample: every watched target that is currently down, as an `Incident`.
    pub fn sample<F: Fn(Vec<String>) -> Ran + Copy, G: Fn(Vec<String>) -> Ran + Copy>(
        &self,
        entries: &Vec<ProcEntry>,
        docker: F,
        kubectl: G,
    ) -> (out: Vec<Incident>)
        requires
            command::runs_anything(docker),
            command::runs_anything(kubectl),
        ensures
            exists|seen: Sighting| #[trigger]
                may_see(self.settings(), entries@, docker, kubectl, seen) && out.deep_view()
                    == incidents(self.settings(), seen),
    {
        let seen = look(&self.cfg, entries, docker, kubectl);
        incidents_seen(&self.cfg, &seen)
    }

    /// What was reported and is still down.
    fn keep(&self, incidents: &Vec<Incident>) -> (out: Vec<String>)
        ensures
            out.deep_view().no_duplicates(),
            out.deep_view().to_set() == self.known().intersect(keys_of(incidents.deep_view())),
    {
        proof {
            use_type_invariant(self);
        }
        let mut down: Vec<String> = Vec::new();
        let mut i: usize = 0;
        proof {
            assert(incidents.deep_view().take(0).map_values(|x: IncidentView| key_of(x))
                =~= Seq::<Seq<char>>::empty());
            assert(down.deep_view() =~= Seq::<Seq<char>>::empty());
        }
        while i < incidents.len()
            invariant
                i <= incidents@.len(),
                down.deep_view().to_set() == keys_of(incidents.deep_view().take(i as int)),
            decreases incidents@.len() - i,
        {
            let key = incidents[i].key();
            let ghost before = down.deep_view();
            proof {
                lemma_keys_grow(incidents.deep_view(), i as int);
                lemma_pushed_key(before, key@);
                assert(incidents.deep_view()[i as int] == incidents@[i as int]@);
            }
            down.push(key);
            assert(down.deep_view() =~= before.push(key@));
            i += 1;
        }
        assert(incidents.deep_view().take(incidents@.len() as int) == incidents.deep_view());
        let ghost all = self.reported.deep_view();
        let ghost held = keys_of(incidents.deep_view());
        let mut out: Vec<String> = Vec::new();
        let mut i: usize = 0;
        proof {
            assert(out.deep_view() =~= Seq::<Seq<char>>::empty());
            assert(out.deep_view().to_set() =~= all.take(0).to_set().intersect(held));
        }
        while i < self.reported.len()
            invariant
                i <= self.reported@.len(),
                all == self.reported.deep_view(),
                all.no_duplicates(),
                down.deep_view().to_set() == held,
                out.deep_view().no_duplicates(),
                out.deep_view().to_set() == all.take(i as int).to_set().intersect(held),
            decreases self.reported@.len() - i,
        {
            let ghost before = out.deep_view();
            let ghost key = all[i as int];
            proof {
                lemma_pushed_key(all.take(i as int), key);
                assert(all.take(i + 1) =~= all.take(i as int).push(key));
                if all.take(i as int).contains(key) {
                    let j = choose|j: int| 0 <= j < i && all.take(i as int)[j] == key;
                    assert(all[j] == all[i as int]);
                }
            }
            if is_among(&down, self.reported[i].as_str()) {
                let kept = self.reported[i].clone();
                proof {
                    assert(kept@ == key);
                    lemma_pushed_key(before, key);
                }
                out.push(kept);
                assert(out.deep_view() =~= before.push(key));
            }
            assert(out.deep_view().to_set() =~= all.take(i + 1).to_set().intersect(held));
            i += 1;
        }
        assert(all.take(all.len() as int) == all);
        out
    }

    /// One turn of the main loop: re-arm anything back up, and tell what is newly down and to be
    /// reported now. Without a connection nothing can be reported; what is down then is tried
    /// again at the next turn.
    pub fn tick(&mut self, incidents: &Vec<Incident>, connected: bool) -> (out: Vec<Incident>)
        ensures
            final(self).settings() == old(self).settings(),
            final(self).known() == known_after(
                old(self).known(),
                incidents.deep_view(),
                connected,
            ),
            out.deep_view() == due(old(self).known(), incidents.deep_view(), connected),
    {
        let ghost known = self.known();
        let ghost all = incidents.deep_view();
        let mut reported = self.keep(incidents);
        let mut out: Vec<Incident> = Vec::new();
        let ghost kept = reported.deep_view().to_set();
        if connected {
            let mut i: usize = 0;
            proof {
                assert(all.take(0).map_values(|x: IncidentView| key_of(x)) =~= Seq::<
                    Seq<char>,
                >::empty());
                assert(kept =~= kept.union(keys_of(all.take(0))));
            }
            while i < incidents.len()
                invariant
                    i <= incidents@.len(),
                    all == incidents.deep_view(),
                    kept == known.intersect(keys_of(all)),
                    reported.deep_view().no_duplicates(),
                    reported.deep_view().to_set() == kept.union(keys_of(all.take(i as int))),
                    out.deep_view() == unknown(all.take(i as int), known),
                decreases incidents@.len() - i,
            {
                let key = incidents[i].key();
                let ghost before = reported.deep_view();
                let ghost told = out.deep_view();
                proof {
                    assert(all[i as int] == incidents@[i as int]@);
                    lemma_keys_grow(all, i as int);
                    lemma_pushed_key(before, key@);
                    assert(all.take(i + 1).drop_last() == all.take(i as int));
                    assert(all.map_values(|x: IncidentView| key_of(x))[i as int] == key@);
                    assert(keys_of(all).contains(key@));
                }
                if !is_among(&reported, key.as_str()) {
                    let incident = incidents[i].copy();
                    out.push(incident);
                    assert(out.deep_view() =~= told.push(incident@));
                    reported.push(key);
                    assert(reported.deep_view() =~= before.push(key@));
                }
                assert(reported.deep_view().to_set() =~= kept.union(keys_of(all.take(i + 1))));
                i += 1;
            }
            proof {
                assert(all.take(all.len() as int) == all);
                assert(kept.union(keys_of(all)) =~= keys_of(all));
            }
        }
        self.reported = reported;
        out
    }
}

// ---------------------------------------------------------------------------------------------
// What is told to an agent
// ---------------------------------------------------------------------------------------------

/// What a session is opened with.
pub struct NewSession {
    pub agent_id: String,
    pub title: Option<String>,
    pub project_id: Option<String>,
    pub preamble: Option<String>,
}

/// What a [`NewSession`] says.
#[verifier::ext_equal]
pub struct SessionView {
    pub agent_id: Seq<char>,
    pub title: Option<Seq<char>>,
    pub project_id: Option<Seq<char>>,
    pub preamble: Option<Seq<char>>,
}

impl View for NewSession {
    type V = SessionView;

    open spec fn view(&self) -> SessionView {
        SessionView {
            agent_id: self.agent_id@,
            title: self.title.deep_view(),
            project_id: self.project_id.deep_view(),
            preamble: self.preamble.deep_view(),
        }
    }
}

/// Why there is no agent to open a session against.
pub enum NoAgent {
    /// None is configured and none is readable.
    NoneReadable,
    /// None is configured and the list could not be had.
    Unlisted(String),
}

/// The agent to open a session against where one is configured. Where none is, the agents have to
/// be listed.
pub fn configured_agent(cfg: &Config) -> (out: Option<String>)
    ensures
        out.deep_view() == cfg.heal_agent_id.deep_view(),
{
    match &cfg.heal_agent_id {
        Some(id) => Some(id.clone()),
        None => None,
    }
}

/// The first agent of a list, where there is one.
pub open spec fn first_of(listed: Result<Vec<String>, String>) -> Option<Seq<char>> {
    match listed {
        Ok(ids) => if ids@.len() > 0 {
            Some(ids@[0]@)
        } else {
            None
        },
        Err(_) => None,
    }
}

/// The agent to open a session against where none is configured: the first readable one.
pub fn first_agent(listed: Result<Vec<String>, String>) -> (out: Result<String, NoAgent>)
    ensures
        out is Ok <==> first_of(listed) is Some,
        out matches Ok(id) ==> first_of(listed) == Some(id@),
        match listed {
            Ok(ids) => if ids@.len() > 0 {
                out matches Ok(id) && id@ == ids@[0]@
            } else {
                out matches Err(NoAgent::NoneReadable)
            },
            Err(why) => out matches Err(NoAgent::Unlisted(said)) && said@ == why@,
        },
{
    match listed {
        Ok(ids) => if ids.len() > 0 {
            Ok(ids[0].clone())
        } else {
            Err(NoAgent::NoneReadable)
        },
        Err(why) => Err(NoAgent::Unlisted(why)),
    }
}

/// The title of a session about an incident.
pub open spec fn session_title(incident: IncidentView) -> Seq<char> {
    "zyris-docker incident: "@ + incident.kind + " "@ + incident.name
}

/// What a session about an incident is opened with.
pub open spec fn session_about(
    cfg: Config,
    agent_id: Seq<char>,
    incident: IncidentView,
) -> SessionView {
    SessionView {
        agent_id,
        title: Some(session_title(incident)),
        project_id: cfg.heal_project_id.deep_view(),
        preamble: Some(cfg.heal_preamble@),
    }
}

/// What a session about an incident is opened with.
pub fn heal_session(cfg: &Config, agent_id: &str, incident: &Incident) -> (out: NewSession)
    ensures
        out@ == session_about(*cfg, agent_id@, incident@),
{
    let mut title = "zyris-docker incident: ".to_owned();
    title.append(incident.kind.as_str());
    title.append(" ");
    title.append(incident.name.as_str());
    let project_id = match &cfg.heal_project_id {
        Some(id) => Some(id.clone()),
        None => None,
    };
    NewSession {
        agent_id: agent_id.to_owned(),
        title: Some(title),
        project_id,
        preamble: Some(cfg.heal_preamble.clone()),
    }
}

/// The message that tells an agent of an incident.
pub open spec fn message(detail: Seq<char>) -> Seq<char> {
    "Self-healing incident on container node.\n\n"@ + detail
        + "\n\nDiagnose with this node's `monitor` and `exec` capabilities, fix what you can, and report back what broke, what you found, what you did, and what remains."@
}

/// The message that tells an agent of an incident.
pub fn heal_message(incident: &Incident) -> (out: String)
    ensures
        out@ == message(incident.detail@),
{
    let mut body = "Self-healing incident on container node.\n\n".to_owned();
    body.append(incident.detail.as_str());
    body.append(
        "\n\nDiagnose with this node's `monitor` and `exec` capabilities, fix what you can, and report back what broke, what you found, what you did, and what remains.",
    );
    body
}

// ---------------------------------------------------------------------------------------------
// The steps of a report
// ---------------------------------------------------------------------------------------------

/// How a report is getting on. A failure carries what was said of it.
pub enum ReportEvent {
    /// The server was asked for its API, and it is there or not.
    Ready(Result<(), String>),
    /// The agents were listed, by their ids.
    Listed(Result<Vec<String>, String>),
    /// A session was opened, and this is its id.
    Opened(Result<String, String>),
    /// The message was sent.
    Sent(Result<(), String>),
}

/// What a [`ReportEvent`] says.
pub enum ReportEventView {
    Ready(Result<(), Seq<char>>),
    Listed(Result<Seq<Seq<char>>, Seq<char>>),
    Opened(Result<Seq<char>, Seq<char>>),
    Sent(Result<(), Seq<char>>),
}

impl View for ReportEvent {
    type V = ReportEventView;

    open spec fn view(&self) -> ReportEventView {
        match self {
            ReportEvent::Ready(Ok(_)) => ReportEventView::Ready(Ok(())),
            ReportEvent::Ready(Err(why)) => ReportEventView::Ready(Err(why@)),
            ReportEvent::Listed(Ok(ids)) => ReportEventView::Listed(Ok(ids.deep_view())),
            ReportEvent::Listed(Err(why)) => ReportEventView::Listed(Err(why@)),
            ReportEvent::Opened(Ok(id)) => ReportEventView::Opened(Ok(id@)),
            ReportEvent::Opened(Err(why)) => ReportEventView::Opened(Err(why@)),
            ReportEvent::Sent(Ok(_)) => ReportEventView::Sent(Ok(())),
            ReportEvent::Sent(Err(why)) => ReportEventView::Sent(Err(why@)),
        }
    }
}

/// Why an incident is not reported.
pub enum NoReport {
    /// The server did not announce its API.
    Unannounced(String),
    /// There is no agent to report to.
    NoAgent(NoAgent),
    /// No session could be opened.
    Unopened(String),
    /// The session was opened, but the message could not be sent.
    Unsent(String),
}

/// What a [`NoReport`] says.
pub enum NoReportView {
    Unannounced(Seq<char>),
    NoneReadable,
    Unlisted(Seq<char>),
    Unopened(Seq<char>),
    Unsent(Seq<char>),
}

impl View for NoReport {
    type V = NoReportView;

    open spec fn view(&self) -> NoReportView {
        match self {
            NoReport::Unannounced(why) => NoReportView::Unannounced(why@),
            NoReport::NoAgent(NoAgent::NoneReadable) => NoReportView::NoneReadable,
            NoReport::NoAgent(NoAgent::Unlisted(why)) => NoReportView::Unlisted(why@),
            NoReport::Unopened(why) => NoReportView::Unopened(why@),
            NoReport::Unsent(why) => NoReportView::Unsent(why@),
        }
    }
}

/// What a report does next.
pub enum ReportNext {
    /// List the agents, then tell [`ReportEvent::Listed`].
    ListAgents,
    /// Open this session, then tell [`ReportEvent::Opened`].
    Open(NewSession),
    /// Send this message to this session, then tell [`ReportEvent::Sent`].
    Send { session: String, message: String },
    /// The incident is reported.
    Done,
    /// It is not, and will not be.
    GiveUp(NoReport),
}

/// What a [`ReportNext`] says.
pub enum ReportNextView {
    ListAgents,
    Open(SessionView),
    Send { session: Seq<char>, message: Seq<char> },
    Done,
    GiveUp(NoReportView),
}

impl View for ReportNext {
    type V = ReportNextView;

    open spec fn view(&self) -> ReportNextView {
        match self {
            ReportNext::ListAgents => ReportNextView::ListAgents,
            ReportNext::Open(session) => ReportNextView::Open(session@),
            ReportNext::Send { session, message } => ReportNextView::Send {
                session: session@,
                message: message@,
            },
            ReportNext::Done => ReportNextView::Done,
            ReportNext::GiveUp(why) => ReportNextView::GiveUp(why@),
        }
    }
}

/// What a report does next: the session is opened against the agent that is configured, or else
/// the first that is listed, and the message goes to the session that was opened. Whatever fails
/// ends the report.
pub open spec fn after_report_event(
    cfg: Config,
    incident: IncidentView,
    event: ReportEventView,
) -> ReportNextView {
    match event {
        ReportEventView::Ready(Ok(_)) => match cfg.heal_agent_id {
            Some(id) => ReportNextView::Open(session_about(cfg, id@, incident)),
            None => ReportNextView::ListAgents,
        },
        ReportEventView::Ready(Err(why)) => ReportNextView::GiveUp(NoReportView::Unannounced(why)),
        ReportEventView::Listed(Ok(ids)) => if ids.len() > 0 {
            ReportNextView::Open(session_about(cfg, ids[0], incident))
        } else {
            ReportNextView::GiveUp(NoReportView::NoneReadable)
        },
        ReportEventView::Listed(Err(why)) => ReportNextView::GiveUp(NoReportView::Unlisted(why)),
        ReportEventView::Opened(Ok(id)) => ReportNextView::Send {
            session: id,
            message: message(incident.detail),
        },
        ReportEventView::Opened(Err(why)) => ReportNextView::GiveUp(NoReportView::Unopened(why)),
        ReportEventView::Sent(Ok(_)) => ReportNextView::Done,
        ReportEventView::Sent(Err(why)) => ReportNextView::GiveUp(NoReportView::Unsent(why)),
    }
}

/// Decides what a report does next.
pub fn report_step(cfg: &Config, incident: &Incident, event: ReportEvent) -> (next: ReportNext)
    ensures
        next@ == after_report_event(*cfg, incident@, event@),
{
    match event {
        ReportEvent::Ready(Ok(_)) => match configured_agent(cfg) {
            Some(id) => ReportNext::Open(heal_session(cfg, id.as_str(), incident)),
            None => ReportNext::ListAgents,
        },
        ReportEvent::Ready(Err(why)) => ReportNext::GiveUp(NoReport::Unannounced(why)),
        ReportEvent::Listed(listed) => match first_agent(listed) {
            Ok(id) => ReportNext::Open(heal_session(cfg, id.as_str(), incident)),
            Err(none) => ReportNext::GiveUp(NoReport::NoAgent(none)),
        },
        ReportEvent::Opened(Ok(session)) => ReportNext::Send {
            session,
            message: heal_message(incident),
        },
        ReportEvent::Opened(Err(why)) => ReportNext::GiveUp(NoReport::Unopened(why)),
        ReportEvent::Sent(Ok(_)) => ReportNext::Done,
        ReportEvent::Sent(Err(why)) => ReportNext::GiveUp(NoReport::Unsent(why)),
    }
}

/// Whether an event tells what came of what a report did.
pub open spec fn comes_of(done: ReportNextView, event: ReportEventView) -> bool {
    match done {
        ReportNextView::ListAgents => event is Listed,
        ReportNextView::Open(_) => event is Opened,
        ReportNextView::Send { .. } => event is Sent,
        _ => false,
    }
}

/// Whether these are the events of one report, in order: it starts once the server was asked for
/// its API, and each further event tells what came of the step before.
pub open spec fn is_report(
    cfg: Config,
    incident: IncidentView,
    events: Seq<ReportEventView>,
) -> bool {
    &&& events.len() > 0
    &&& events[0] is Ready
    &&& forall|i: int|
        0 < i < events.len() ==> comes_of(
            after_report_event(cfg, incident, events[i - 1]),
            #[trigger] events[i],
        )
}

/// How far a report is.
spec fn stage(event: ReportEventView) -> int {
    match event {
        ReportEventView::Ready(_) => 0,
        ReportEventView::Listed(_) => 1,
        ReportEventView::Opened(_) => 2,
        ReportEventView::Sent(_) => 3,
    }
}

proof fn lemma_a_report_moves_on(
    cfg: Config,
    incident: IncidentView,
    events: Seq<ReportEventView>,
    i: int,
    j: int,
)
    requires
        is_report(cfg, incident, events),
        0 <= i < j < events.len(),
    ensures
        stage(events[i]) < stage(events[j]),
        after_report_event(cfg, incident, events[i]) is Open ==> stage(events[j]) >= 2,
    decreases j - i,
{
    assert(comes_of(after_report_event(cfg, incident, events[j - 1]), events[j]));
    if i < j - 1 {
        lemma_a_report_moves_on(cfg, incident, events, i, j - 1);
    }
}

/// A report opens one session at most and sends one message at most. The session is opened against
/// the configured agent or, where none is configured, the first one listed. The message goes to the
/// session that was opened in the step before, and tells of the incident. A report takes four
/// events at most.
pub proof fn a_report_opens_one_session_and_then_sends_one_message(
    cfg: Config,
    incident: IncidentView,
    events: Seq<ReportEventView>,
    i: int,
    j: int,
)
    requires
        is_report(cfg, incident, events),
        0 <= i < events.len(),
        0 <= j < events.len(),
    ensures
        after_report_event(cfg, incident, events[i]) is Open && after_report_event(
            cfg,
            incident,
            events[j],
        ) is Open ==> i == j,
        after_report_event(cfg, incident, events[i]) is Send && after_report_event(
            cfg,
            incident,
            events[j],
        ) is Send ==> i == j,
        after_report_event(cfg, incident, events[i]) matches ReportNextView::Open(session)
            ==> session == session_about(
            cfg,
            match cfg.heal_agent_id {
                Some(id) => id@,
                None => events[i]->Listed_0->Ok_0[0],
            },
            incident,
        ),
        after_report_event(cfg, incident, events[i]) matches ReportNextView::Send {
            session,
            message: sent,
        } ==> {
            &&& i > 0
            &&& after_report_event(cfg, incident, events[i - 1]) is Open
            &&& events[i] == ReportEventView::Opened(Ok(session))
            &&& sent == message(incident.detail)
        },
        events.len() <= 4,
{
    if i < j {
        lemma_a_report_moves_on(cfg, incident, events, i, j);
    } else if j < i {
        lemma_a_report_moves_on(cfg, incident, events, j, i);
    }
    if i > 0 {
        lemma_a_report_moves_on(cfg, incident, events, 0, i);
        assert(comes_of(after_report_event(cfg, incident, events[i - 1]), events[i]));
        if events[i] is Listed {
            if i > 1 {
                lemma_a_report_moves_on(cfg, incident, events, 0, i - 1);
                lemma_a_report_moves_on(cfg, incident, events, i - 1, i);
            }
        }
    }
    if events.len() > 4 {
        lemma_a_report_moves_on(cfg, incident, events, 0, 1);
        lemma_a_report_moves_on(cfg, incident, events, 1, 2);
        lemma_a_report_moves_on(cfg, incident, events, 2, 3);
        lemma_a_report_moves_on(cfg, incident, events, 3, 4);
    }
}

// ---------------------------------------------------------------------------------------------
// What the watcher keeps to
// ---------------------------------------------------------------------------------------------

/// Pods are judged one by one. A pod with a name whose phase is any text but `Running` and
/// `Succeeded`, so `Failed`, `Pending` and `Unknown` too, is one incident, which names it with its
/// namespace and tells its phase and reason. One in the phase `Running` or `Succeeded` is none.
pub proof fn every_pod_that_is_not_running_or_done_is_reported(
    a: Seq<PodView>,
    b: Seq<PodView>,
    pod: PodView,
)
    ensures
        pods_down(a + b) == pods_down(a) + pods_down(b),
        pod.phase == "Running"@ || pod.phase == "Succeeded"@ ==> pods_down(seq![pod]) == Seq::<
            IncidentView,
        >::empty(),
        pod.phase != "Running"@ && pod.phase != "Succeeded"@ && pod.name.len() > 0 ==> pods_down(
            seq![pod],
        ) == seq![
            IncidentView {
                kind: "k8s_pod"@,
                name: pod.namespace + "/"@ + pod.name,
                detail: "pod in phase "@ + pod.phase + " ("@ + pod.reason + ")"@,
            },
        ],
        pod.name.len() == 0 ==> pods_down(seq![pod]) == Seq::<IncidentView>::empty(),
    decreases b.len(),
{
    if b.len() == 0 {
        assert(a + b == a);
        assert(pods_down(a) + pods_down(b) == pods_down(a));
        assert(seq![pod].drop_last() == Seq::<PodView>::empty());
        assert(seq![pod].last() == pod);
        assert(pods_down(Seq::<PodView>::empty()) == Seq::<IncidentView>::empty());
        if pod.phase != "Running"@ && pod.phase != "Succeeded"@ && pod.name.len() > 0 {
            assert(pods_down(seq![pod]) == Seq::<IncidentView>::empty().push(pod_down(pod)));
            assert(pods_down(seq![pod]) == seq![pod_down(pod)]);
        }
    } else {
        every_pod_that_is_not_running_or_done_is_reported(a, b.drop_last(), pod);
        assert((a + b).drop_last() == a + b.drop_last());
        assert((a + b).last() == b.last());
        assert(pods_down(a + b) == pods_down(a) + pods_down(b));
    }
}

/// Whatever else is listed, a pod in the phase `Failed`, `Pending` or `Unknown`, or in any other but
/// `Running` and `Succeeded`, has its incident among those reported.
pub proof fn a_failed_pod_is_reported_among_others(pods: Seq<PodView>, i: int)
    requires
        0 <= i < pods.len(),
        pods[i].name.len() > 0,
        pods[i].phase == "Failed"@ || pods[i].phase == "Pending"@ || pods[i].phase == "Unknown"@ || (
        pods[i].phase != "Running"@ && pods[i].phase != "Succeeded"@),
    ensures
        pods_down(pods).contains(
            IncidentView {
                kind: "k8s_pod"@,
                name: pods[i].namespace + "/"@ + pods[i].name,
                detail: "pod in phase "@ + pods[i].phase + " ("@ + pods[i].reason + ")"@,
            },
        ),
{
    reveal_strlit("Running");
    reveal_strlit("Succeeded");
    reveal_strlit("Failed");
    reveal_strlit("Pending");
    reveal_strlit("Unknown");
    assert("Running"@[0] == 'R' && "Pending"@[0] == 'P' && "Unknown"@[0] == 'U');
    let before = pods.take(i);
    let behind = pods.skip(i + 1);
    assert(pods == before + seq![pods[i]] + behind);
    every_pod_that_is_not_running_or_done_is_reported(before + seq![pods[i]], behind, pods[i]);
    every_pod_that_is_not_running_or_done_is_reported(before, seq![pods[i]], pods[i]);
    let told = IncidentView {
        kind: "k8s_pod"@,
        name: pods[i].namespace + "/"@ + pods[i].name,
        detail: "pod in phase "@ + pods[i].phase + " ("@ + pods[i].reason + ")"@,
    };
    assert(seq![told][0] == told);
    assert(pods_down(pods)[pods_down(before).len() as int] == told);
}

/// Nodes are judged one by one: one that is not ready is one incident, which names it, and one that
/// is ready is none.
pub proof fn every_node_that_is_not_ready_is_reported(
    a: Seq<NodeView>,
    b: Seq<NodeView>,
    node: NodeView,
)
    ensures
        nodes_down(a + b) == nodes_down(a) + nodes_down(b),
        node.ready ==> nodes_down(seq![node]) == Seq::<IncidentView>::empty(),
        !node.ready ==> nodes_down(seq![node]) == seq![
            IncidentView { kind: "k8s_node"@, name: node.name, detail: "node is not Ready"@ },
        ],
    decreases b.len(),
{
    if b.len() == 0 {
        assert(a + b == a);
        assert(nodes_down(a) + nodes_down(b) == nodes_down(a));
        assert(seq![node].drop_last() == Seq::<NodeView>::empty());
        assert(seq![node].last() == node);
        assert(nodes_down(Seq::<NodeView>::empty()) == Seq::<IncidentView>::empty());
        if !node.ready {
            assert(nodes_down(seq![node]) == seq![node_down(node)]);
        }
    } else {
        every_node_that_is_not_ready_is_reported(a, b.drop_last(), node);
        assert((a + b).drop_last() == a + b.drop_last());
        assert((a + b).last() == b.last());
        assert(nodes_down(a + b) == nodes_down(a) + nodes_down(b));
    }
}

/// Watched processes and containers are judged one by one, each by whether it was seen running.
pub proof fn everything_watched_is_judged_one_by_one(
    names: Seq<Seq<char>>,
    name: Seq<char>,
    up: Seq<bool>,
    told: spec_fn(Seq<char>) -> IncidentView,
)
    ensures
        down_among(Seq::empty(), up, told) == Seq::<IncidentView>::empty(),
        up[names.len() as int] ==> down_among(names.push(name), up, told) == down_among(
            names,
            up,
            told,
        ),
        !up[names.len() as int] ==> down_among(names.push(name), up, told) == down_among(
            names,
            up,
            told,
        ).push(told(name)),
{
    assert(names.push(name).drop_last() == names);
}

/// What is reported, all in all: of each watched process and container that was not seen running
/// one incident each, in the order in which they are watched; then what is wrong with the pods,
/// or that they could not be read; then what is wrong with the nodes. Without a look at the cluster
/// nothing is reported of it.
pub proof fn what_is_reported_is_what_is_down(cfg: Config, seen: Sighting)
    ensures
        ({
            let processes = down_among(
                cfg.watch_processes.deep_view(),
                seen.processes@,
                |name: Seq<char>|
                    IncidentView {
                        kind: "process"@,
                        name,
                        detail: "required process `"@ + name + "` is not running in this container"@,
                    },
            );
            let containers = down_among(
                cfg.watch_containers.deep_view(),
                seen.containers@,
                |name: Seq<char>|
                    IncidentView {
                        kind: "container"@,
                        name,
                        detail: "required docker container `"@ + name + "` is not running"@,
                    },
            );
            &&& seen.cluster is None ==> incidents(cfg, seen) == processes + containers
            &&& seen.cluster matches Some(cluster) ==> incidents(cfg, seen) == processes + containers
                + (match cluster.pods {
                Ok(pods) => pods_down(pods.deep_view()),
                Err(why) => seq![
                    IncidentView {
                        kind: "k8s"@,
                        name: "cluster"@,
                        detail: "could not read pods: "@ + why@,
                    },
                ],
            }) + (match cluster.nodes {
                Ok(nodes) => nodes_down(nodes.deep_view()),
                Err(_) => Seq::empty(),
            })
        }),
{
    let of_processes = |name: Seq<char>|
        IncidentView {
            kind: "process"@,
            name,
            detail: "required process `"@ + name + "` is not running in this container"@,
        };
    let of_containers = |name: Seq<char>|
        IncidentView {
            kind: "container"@,
            name,
            detail: "required docker container `"@ + name + "` is not running"@,
        };
    assert(of_processes =~= (|name: Seq<char>| process_down(name)));
    assert(of_containers =~= (|name: Seq<char>| container_down(name)));
    let processes = down_among(cfg.watch_processes.deep_view(), seen.processes@, of_processes);
    let containers = down_among(cfg.watch_containers.deep_view(), seen.containers@, of_containers);
    match seen.cluster {
        None => {
            assert(processes + containers + Seq::<IncidentView>::empty() == processes + containers);
        },
        Some(cluster) => {
            let pods = match cluster.pods {
                Ok(pods) => pods_down(pods.deep_view()),
                Err(why) => seq![cluster_unread(why@)],
            };
            let nodes = match cluster.nodes {
                Ok(nodes) => nodes_down(nodes.deep_view()),
                Err(_) => Seq::<IncidentView>::empty(),
            };
            assert(incidents(cfg, seen) == processes + containers + (pods + nodes));
            assert(processes + containers + (pods + nodes) == processes + containers + pods + nodes);
        },
    }
}

/// A look around takes a process for running exactly where an entry of that name is listed, a
/// container for what `docker` says of it, and looks at the cluster exactly where it is watched.
pub proof fn a_look_is_at_everything_watched<F: Fn(Vec<String>) -> Ran, G: Fn(Vec<String>) -> Ran>(
    cfg: Config,
    entries: Seq<ProcEntry>,
    docker: F,
    kubectl: G,
    seen: Sighting,
    i: int,
)
    requires
        may_see(cfg, entries, docker, kubectl, seen),
    ensures
        seen.processes@.len() == cfg.watch_processes@.len(),
        seen.containers@.len() == cfg.watch_containers@.len(),
        0 <= i < cfg.watch_processes@.len() ==> (seen.processes@[i] <==> exists|k: int|
            0 <= k < system::processes(entries).len() && (#[trigger] system::processes(
                entries,
            )[k]).name == cfg.watch_processes@[i]@),
        0 <= i < cfg.watch_containers@.len() ==> docker::may_be_running(
            docker,
            cfg.watch_containers@[i]@,
            seen.containers@[i],
        ),
        seen.cluster is Some <==> cfg.watch_k8s,
        seen.cluster matches Some(cluster) ==> k8s::may_list_pods(
            kubectl,
            command::outcome(cluster.pods),
        ) && k8s::may_list_nodes(kubectl, command::outcome(cluster.nodes)),
{
    if 0 <= i < cfg.watch_processes@.len() {
        assert(seen.processes@[i] == system::any_named(
            system::processes(entries),
            cfg.watch_processes@[i]@,
        ));
    }
    if 0 <= i < cfg.watch_containers@.len() {
        assert(docker::may_be_running(docker, cfg.watch_containers@[i]@, seen.containers@[i]));
    }
}

/// Two incidents are remembered as one exactly where both are of one kind and have one name,
/// whatever else is told of them; two of one kind with different names never are.
pub proof fn an_incident_is_remembered_by_its_kind_and_name(a: IncidentView, b: IncidentView)
    ensures
        a.kind == b.kind && a.name == b.name ==> key_of(a) == key_of(b),
        a.kind == b.kind && a.name != b.name ==> key_of(a) != key_of(b),
        a.kind != b.kind && a.name == b.name ==> key_of(a) != key_of(b),
        key_of(a) == a.kind + ":"@ + a.name,
{
    reveal_strlit(":");
    let n = a.kind.len() as int;
    assert(key_of(a).skip(n + 1) == a.name);
    assert(key_of(b).skip(b.kind.len() as int + 1) == b.name);
    assert(key_of(a).take(n) == a.kind);
    assert(key_of(b).take(b.kind.len() as int) == b.kind);
    if a.name == b.name && key_of(a) == key_of(b) {
        assert(a.kind.len() == b.kind.len());
    }
}

/// A tick goes through what is down in order: each is reported unless it is known, or stood before
/// with the same kind and name. Without a connection nothing is reported.
pub proof fn each_that_is_newly_down_is_reported(
    known: Set<Seq<char>>,
    incidents: Seq<IncidentView>,
    next: IncidentView,
)
    ensures
        ({
            let stood = exists|i: int|
                0 <= i < incidents.len() && (#[trigger] incidents[i]).kind + ":"@
                    + incidents[i].name == next.kind + ":"@ + next.name;
            &&& known.contains(next.kind + ":"@ + next.name) || stood ==> due(
                known,
                incidents.push(next),
                true,
            ) == due(known, incidents, true)
            &&& !known.contains(next.kind + ":"@ + next.name) && !stood ==> due(
                known,
                incidents.push(next),
                true,
            ) == due(known, incidents, true).push(next)
        }),
        due(known, Seq::empty(), true) == Seq::<IncidentView>::empty(),
        due(known, incidents, false) == Seq::<IncidentView>::empty(),
{
    let more = incidents.push(next);
    assert(more.drop_last() == incidents);
    assert(more.last() == next);
    lemma_keys(incidents, key_of(next));
}

proof fn lemma_keys(incidents: Seq<IncidentView>, key: Seq<char>)
    ensures
        keys_of(incidents).contains(key) <==> exists|i: int|
            0 <= i < incidents.len() && (#[trigger] incidents[i]).kind + ":"@ + incidents[i].name
                == key,
{
    let keys = incidents.map_values(|incident: IncidentView| key_of(incident));
    if keys_of(incidents).contains(key) {
        let i = choose|i: int| 0 <= i < keys.len() && keys[i] == key;
        assert(incidents[i].kind + ":"@ + incidents[i].name == key);
    }
    if exists|i: int|
        0 <= i < incidents.len() && (#[trigger] incidents[i]).kind + ":"@ + incidents[i].name
            == key {
        let i = choose|i: int|
            0 <= i < incidents.len() && (#[trigger] incidents[i]).kind + ":"@ + incidents[i].name
                == key;
        assert(keys[i] == key);
        assert(keys.contains(key));
    }
}

/// What is remembered after a tick over a connection is exactly what was found down; without one it
/// is what of that was remembered before.
pub proof fn exactly_what_is_down_is_remembered(
    known: Set<Seq<char>>,
    incidents: Seq<IncidentView>,
    key: Seq<char>,
)
    ensures
        known_after(known, incidents, true).contains(key) <==> exists|i: int|
            0 <= i < incidents.len() && (#[trigger] incidents[i]).kind + ":"@ + incidents[i].name
                == key,
        known_after(known, incidents, false).contains(key) <==> known.contains(key) && exists|
            i: int,
        |
            0 <= i < incidents.len() && (#[trigger] incidents[i]).kind + ":"@ + incidents[i].name
                == key,
{
    lemma_keys(incidents, key);
}

/// A session about an incident names its kind and its name in the title, carries what every session
/// is told and the project that is configured, and its message tells the whole detail.
pub proof fn a_session_tells_of_its_incident(cfg: Config, agent: Seq<char>, incident: IncidentView)
    ensures
        ({
            let session = session_about(cfg, agent, incident);
            let head = "zyris-docker incident: "@;
            let title = session.title->0;
            &&& session.agent_id == agent
            &&& session.title is Some
            &&& title == head + incident.kind + " "@ + incident.name
            &&& session.preamble == Some(cfg.heal_preamble@)
            &&& session.project_id is Some <==> cfg.heal_project_id is Some
            &&& cfg.heal_project_id matches Some(project) ==> session.project_id == Some(project@)
        }),
        exists|at: int|
            0 <= at && at + incident.detail.len() <= message(incident.detail).len()
                && #[trigger] message(incident.detail).subrange(at, at + incident.detail.len())
                == incident.detail,
{
    let whole = message(incident.detail);
    let at = "Self-healing incident on container node.\n\n"@.len() as int;
    assert(whole.subrange(at, at + incident.detail.len()) == incident.detail);
}

/// What a report does next, step by step: with a configured agent its session is opened at once,
/// and without one the agents are listed first; the message goes to the session that was opened;
/// whatever fails ends the report, with its reason.
pub proof fn a_report_goes_on_only_after_success(
    cfg: Config,
    incident: IncidentView,
    why: Seq<char>,
    id: Seq<char>,
    ids: Seq<Seq<char>>,
)
    ensures
        cfg.heal_agent_id matches Some(agent) ==> after_report_event(
            cfg,
            incident,
            ReportEventView::Ready(Ok(())),
        ) == ReportNextView::Open(session_about(cfg, agent@, incident)),
        cfg.heal_agent_id is None ==> after_report_event(
            cfg,
            incident,
            ReportEventView::Ready(Ok(())),
        ) is ListAgents,
        ids.len() > 0 ==> after_report_event(cfg, incident, ReportEventView::Listed(Ok(ids)))
            == ReportNextView::Open(session_about(cfg, ids[0], incident)),
        ids.len() == 0 ==> after_report_event(cfg, incident, ReportEventView::Listed(Ok(ids)))
            == ReportNextView::GiveUp(NoReportView::NoneReadable),
        after_report_event(cfg, incident, ReportEventView::Opened(Ok(id))) == (
        ReportNextView::Send { session: id, message: message(incident.detail) }),
        after_report_event(cfg, incident, ReportEventView::Sent(Ok(()))) is Done,
        after_report_event(cfg, incident, ReportEventView::Ready(Err(why)))
            == ReportNextView::GiveUp(NoReportView::Unannounced(why)),
        after_report_event(cfg, incident, ReportEventView::Listed(Err(why)))
            == ReportNextView::GiveUp(NoReportView::Unlisted(why)),
        after_report_event(cfg, incident, ReportEventView::Opened(Err(why)))
            == ReportNextView::GiveUp(NoReportView::Unopened(why)),
        after_report_event(cfg, incident, ReportEventView::Sent(Err(why)))
            == ReportNextView::GiveUp(NoReportView::Unsent(why)),
{
}

/// The agent that is asked is the first of those listed, and where none is listed there is none.
pub proof fn the_first_listed_agent_is_asked(ids: Vec<String>, why: String)
    ensures
        ids@.len() > 0 ==> first_of(Ok(ids)) == Some(ids.deep_view()[0]),
        ids@.len() == 0 ==> first_of(Ok(ids)) is None,
        first_of(Err(why)) is None,
{
}

/// A watched process that no entry is named after is among what is reported, and so is a watched
/// container that was not seen running, whatever else is down.
pub proof fn what_is_watched_and_missing_is_reported<
    F: Fn(Vec<String>) -> Ran,
    G: Fn(Vec<String>) -> Ran,
>(
    cfg: Config,
    entries: Seq<ProcEntry>,
    docker: F,
    kubectl: G,
    seen: Sighting,
    i: int,
)
    requires
        may_see(cfg, entries, docker, kubectl, seen),
    ensures
        0 <= i < cfg.watch_processes@.len() && (forall|k: int|
            0 <= k < system::processes(entries).len() ==> (#[trigger] system::processes(
                entries,
            )[k]).name != cfg.watch_processes@[i]@) ==> incidents(cfg, seen).contains(
            IncidentView {
                kind: "process"@,
                name: cfg.watch_processes@[i]@,
                detail: "required process `"@ + cfg.watch_processes@[i]@
                    + "` is not running in this container"@,
            },
        ),
        0 <= i < cfg.watch_containers@.len() && !seen.containers@[i] ==> incidents(
            cfg,
            seen,
        ).contains(
            IncidentView {
                kind: "container"@,
                name: cfg.watch_containers@[i]@,
                detail: "required docker container `"@ + cfg.watch_containers@[i]@
                    + "` is not running"@,
            },
        ),
{
    a_look_is_at_everything_watched(cfg, entries, docker, kubectl, seen, i);
    let processes = cfg.watch_processes.deep_view();
    let containers = cfg.watch_containers.deep_view();
    let of_processes = |name: Seq<char>| process_down(name);
    let of_containers = |name: Seq<char>| container_down(name);
    what_is_down_is_an_incident(processes, seen.processes@, of_processes);
    what_is_down_is_an_incident(containers, seen.containers@, of_containers);
    let first = down_among(processes, seen.processes@, of_processes);
    let second = down_among(containers, seen.containers@, of_containers);
    let all = incidents(cfg, seen);
    if 0 <= i < cfg.watch_processes@.len() && !seen.processes@[i] {
        assert(processes[i] == cfg.watch_processes@[i]@);
        let told = of_processes(processes[i]);
        assert(first.contains(told));
        let k = choose|k: int| 0 <= k < first.len() && first[k] == told;
        assert(all[k] == told);
    }
    if 0 <= i < cfg.watch_containers@.len() && !seen.containers@[i] {
        assert(containers[i] == cfg.watch_containers@[i]@);
        let told = of_containers(containers[i]);
        assert(second.contains(told));
        let k = choose|k: int| 0 <= k < second.len() && second[k] == told;
        assert(all[first.len() + k] == told);
    }
}

} // verus!
