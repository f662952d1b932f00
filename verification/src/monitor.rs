//! The `monitor` capability: what an agent may ask about this node's surroundings, and how a
//! failure is answered.

use vstd::prelude::*;
use vstd::string::*;

use crate::command;
use crate::command::Ran;
use crate::docker;
use crate::docker::{container_info, container_running, list_containers, ContainerInfo};
use crate::k8s;
use crate::k8s::{available, nodes, pods, NodeInfo, PodInfo};
use crate::text;
use crate::text::{read_lossy, trim};
use crate::wire::{ErrorCode, WireError};

verus! {

/// A single failing watch target, as the self-healing watcher reports it.
pub struct Incident {
    /// Which kind of target broke: `process`, `container`, `k8s_pod`, `k8s_node`, or `k8s` where
    /// the cluster itself could not be read.
    pub kind: String,
    /// The target's name (a comm name, container name, pod name or node name).
    pub name: String,
    /// What the watcher observed, human-readable.
    pub detail: String,
}

/// What an [`Incident`] says.
#[verifier::ext_equal]
pub struct IncidentView {
    pub kind: Seq<char>,
    pub name: Seq<char>,
    pub detail: Seq<char>,
}

impl View for Incident {
    type V = IncidentView;

    open spec fn view(&self) -> IncidentView {
        IncidentView { kind: self.kind@, name: self.name@, detail: self.detail@ }
    }
}

impl DeepView for Incident {
    type V = IncidentView;

    open spec fn deep_view(&self) -> IncidentView {
        self@
    }
}

/// What a `docker` action returned.
pub struct ActionResult {
    pub ok: bool,
    /// `stdout` when the action succeeded, `stderr` otherwise.
    pub output: String,
}

/// The refusal that a failed reading is answered with.
pub fn map_err(why: String) -> (error: WireError)
    ensures
        refuses(error, why@),
{
    WireError::new(ErrorCode::Other("monitor".to_owned()), why)
}

/// Whether a refusal is this capability's own, for this reason.
pub open spec fn refuses(error: WireError, why: Seq<char>) -> bool {
    &&& error.code matches ErrorCode::Other(kind)
    &&& kind@ == "monitor"@
    &&& error.message@ == why
}

/// Whether an answer is what was found: the value itself, or a refusal with the reason why there
/// is none.
pub open spec fn answers<T: DeepView>(
    answer: Result<T, WireError>,
    found: Result<T::V, Seq<char>>,
) -> bool {
    match (answer, found) {
        (Ok(value), Ok(wanted)) => value.deep_view() == wanted,
        (Err(error), Err(why)) => refuses(error, why),
        _ => false,
    }
}

/// What came of an action on a container.
pub open spec fn acted(came: Ran) -> (bool, Seq<char>) {
    match came {
        Ok(output) => if output.success {
            (true, text::trimmed(text::lossy_text(output.stdout@)))
        } else {
            (false, command::complaint(output.stderr@))
        },
        Err(reason) => (false, reason@),
    }
}

/// Arguments of `docker` that do something to a container.
pub open spec fn action_args(verb: Seq<char>, selector: Seq<char>) -> Seq<Seq<char>> {
    seq![verb, selector]
}

/// Whether this is what an action on a container may come to.
pub open spec fn may_act<F: Fn(Vec<String>) -> Ran>(
    run: F,
    verb: Seq<char>,
    selector: Seq<char>,
    result: (bool, Seq<char>),
) -> bool {
    exists|came: Ran| #[trigger]
        command::may_run(run, action_args(verb, selector), came) && result == acted(came)
}

/// What came of an action on a container.
pub fn action_result(came: Ran) -> (out: ActionResult)
    ensures
        (out.ok, out.output@) == acted(came),
{
    match came {
        Ok(output) => if output.success {
            let said = read_lossy(&output.stdout);
            ActionResult { ok: true, output: trim(said.as_str()) }
        } else {
            ActionResult { ok: false, output: output.complaint() }
        },
        Err(reason) => ActionResult { ok: false, output: reason },
    }
}

/// Does something to a container.
pub fn run_action<F: Fn(Vec<String>) -> Ran>(verb: &str, selector: &str, run: F) -> (out:
    ActionResult)
    requires
        command::runs_anything(run),
    ensures
        may_act(run, verb@, selector@, (out.ok, out.output@)),
{
    let args = vec![verb.to_owned(), selector.to_owned()];
    assert(args.deep_view() =~= action_args(verb@, selector@));
    let came = run(args);
    assert(command::may_run(run, action_args(verb@, selector@), came));
    action_result(came)
}

/// The capability's own node. It keeps nothing between calls; programs are run by what is handed
/// in with each call.
pub struct MonitorNode;

impl MonitorNode {
    pub fn new() -> (out: MonitorNode)
        ensures
            out == MonitorNode,
    {
        MonitorNode
    }

    /// List all Docker containers (including stopped), with id, name, image, state, running flag
    /// and status line.
    pub fn docker_list<F: Fn(Vec<String>) -> Ran>(&self, run: F) -> (out: Result<
        Vec<ContainerInfo>,
        WireError,
    >)
        requires
            command::runs_anything(run),
        ensures
            exists|found| #[trigger] docker::may_list(run, found) && answers(out, found),
    {
        let found = list_containers(run);
        assert(docker::may_list(run, command::outcome(found)));
        match found {
            Ok(containers) => Ok(containers),
            Err(why) => Err(map_err(why)),
        }
    }

    /// Fetch one Docker container by name or id.
    pub fn docker_container<F: Fn(Vec<String>) -> Ran>(&self, selector: &str, run: F) -> (out:
        Result<ContainerInfo, WireError>)
        requires
            command::runs_anything(run),
        ensures
            exists|found| #[trigger]
                docker::may_pick(run, selector@, found) && answers(out, found),
    {
        let found = container_info(selector, run);
        assert(docker::may_pick(run, selector@, command::outcome(found)));
        match found {
            Ok(container) => Ok(container),
            Err(why) => Err(map_err(why)),
        }
    }

    /// Whether the named Docker container is currently running.
    pub fn docker_running<F: Fn(Vec<String>) -> Ran>(&self, selector: &str, run: F) -> (yes: bool)
        requires
            command::runs_anything(run),
        ensures
            docker::may_be_running(run, selector@, yes),
    {
        container_running(selector, run)
    }

    /// Start a stopped Docker container by name or id.
    pub fn docker_start<F: Fn(Vec<String>) -> Ran>(&self, selector: &str, run: F) -> (out:
        ActionResult)
        requires
            command::runs_anything(run),
        ensures
            may_act(run, "start"@, selector@, (out.ok, out.output@)),
    {
        run_action("start", selector, run)
    }

    /// Restart a Docker container by name or id (stops then starts it).
    pub fn docker_restart<F: Fn(Vec<String>) -> Ran>(&self, selector: &str, run: F) -> (out:
        ActionResult)
        requires
            command::runs_anything(run),
        ensures
            may_act(run, "restart"@, selector@, (out.ok, out.output@)),
    {
        run_action("restart", selector, run)
    }

    /// List all Kubernetes pods across every namespace, with phase, readiness, restarts, node and
    /// failure reason.
    pub fn k8s_pods<F: Fn(Vec<String>) -> Ran>(&self, run: F) -> (out: Result<
        Vec<PodInfo>,
        WireError,
    >)
        requires
            command::runs_anything(run),
        ensures
            exists|found| #[trigger] k8s::may_list_pods(run, found) && answers(out, found),
    {
        let found = pods(run);
        assert(k8s::may_list_pods(run, command::outcome(found)));
        match found {
            Ok(list) => Ok(list),
            Err(why) => Err(map_err(why)),
        }
    }

    /// List all Kubernetes nodes, with ready flag, roles and version.
    pub fn k8s_nodes<F: Fn(Vec<String>) -> Ran>(&self, run: F) -> (out: Result<
        Vec<NodeInfo>,
        WireError,
    >)
        requires
            command::runs_anything(run),
        ensures
            exists|found| #[trigger] k8s::may_list_nodes(run, found) && answers(out, found),
    {
        let found = nodes(run);
        assert(k8s::may_list_nodes(run, command::outcome(found)));
        match found {
            Ok(list) => Ok(list),
            Err(why) => Err(map_err(why)),
        }
    }

    /// Whether Kubernetes is reachable at all. False when kubectl is absent or has no cluster.
    pub fn k8s_available<F: Fn(Vec<String>) -> Ran>(&self, run: F) -> (yes: bool)
        requires
            command::runs_anything(run),
        ensures
            k8s::may_be_available(run, yes),
    {
        available(run)
    }
}

/// An action is done exactly where `docker` succeeded. What comes back is what it printed then, and
/// else what it complained of, or why it could not be run.
pub proof fn an_action_is_done_only_where_docker_succeeds(came: Ran)
    ensures
        acted(came).0 <==> came is Ok && came->Ok_0.success,
        came is Ok && came->Ok_0.success ==> acted(came).1 == text::trimmed(
            text::lossy_text(came->Ok_0.stdout@),
        ),
        came is Ok && !came->Ok_0.success ==> acted(came).1 == text::trimmed(
            text::lossy_text(came->Ok_0.stderr@),
        ),
        came matches Err(reason) ==> acted(came).1 == reason@,
{
}

/// An action is asked for by its verb and the one container that is named, and nothing else.
pub proof fn an_action_is_on_the_named_container<F: Fn(Vec<String>) -> Ran>(
    run: F,
    verb: Seq<char>,
    selector: Seq<char>,
    came: Ran,
)
    ensures
        action_args(verb, selector).len() == 2,
        action_args(verb, selector)[0] == verb,
        action_args(verb, selector)[1] == selector,
        command::may_run(run, action_args(verb, selector), came) ==> may_act(
            run,
            verb,
            selector,
            acted(came),
        ),
        (forall|other: Ran| #[trigger]
            command::may_run(run, action_args(verb, selector), other) ==> other is Err
                || !other->Ok_0.success) ==> forall|said: Seq<char>| !#[trigger] may_act(
            run,
            verb,
            selector,
            (true, said),
        ),
{
}

/// What was found is answered as it is, and what could not be is refused with the reason.
pub proof fn an_answer_is_what_was_found<T: DeepView>(
    answer: Result<T, WireError>,
    found: Result<T::V, Seq<char>>,
)
    requires
        answers(answer, found),
    ensures
        answer is Ok <==> found is Ok,
        answer matches Ok(value) ==> found == Ok::<T::V, Seq<char>>(value.deep_view()),
        answer matches Err(error) ==> found == Err::<T::V, Seq<char>>(error.message@) && (error.code
            matches ErrorCode::Other(kind) && kind@ == "monitor"@),
{
}

} // verus!
