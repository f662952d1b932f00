//! What the dial loop is configured with, and what it decides.
//!
//! Nothing here is clever, and that is the point: backoff with jitter, a healthy connection resets
//! it, one attempt to replace a credential on a refusal, and exit codes a supervisor can act on.
//! Dialling, waiting and asking for credentials are left to the caller, who does what [`Dialer`]
//! says and tells it what came of it.

use std::collections::hash_map::RandomState;
use std::hash::BuildHasher;

use vstd::arithmetic::power2;
use vstd::prelude::*;
use vstd::string::*;

use crate::env::Env;
use crate::runtime::credentials;
use crate::runtime::credentials::{CredentialsError, TroubleView};
use crate::text;
use crate::text::{list_of, same};
use crate::time;
use crate::time::Duration;

verus! {

// ---------------------------------------------------------------------------------------------
// Configuration
// ---------------------------------------------------------------------------------------------

/// A connection that stayed up this many seconds counts as healthy, so its eventual drop restarts
/// the backoff from the bottom.
pub const DEFAULT_STABLE_AFTER_SECS: u64 = 30;

/// The shortest backoff, in seconds.
pub const DEFAULT_BACKOFF_MIN_SECS: u64 = 1;

/// The longest backoff, in seconds.
pub const DEFAULT_BACKOFF_MAX_SECS: u64 = 30;

/// How many milliseconds a closing frame has to reach the server.
pub const CLOSE_GRACE_MILLIS: u64 = 200;

/// The name of a node on a machine that has none.
pub const FALLBACK_NODE_NAME: &'static str = "zyris-node";

/// The deployment that a node dials where nothing says otherwise: `zyris::DEFAULT_SERVER_URL`,
/// whose value the contract spells out.
#[verifier::external_body]
fn default_server_url() -> (out: String)
    ensures
        out@ == "wss://attacca.cc/api/zyris/v1/ws"@,
{
    zyris::DEFAULT_SERVER_URL.to_string()
}

/// `zyris::machine_name`: this machine's own name up to its first dot, where it has one. Which
/// name that is depends on the machine; a name that is given is not empty, holds no dot and has no
/// white space around it.
#[verifier::external_body]
pub(crate) fn machine_name() -> (out: Option<String>)
    ensures
        could_be_named(out),
{
    zyris::machine_name()
}

/// Whether a machine can have this name, or none.
pub open spec fn could_be_named(machine: Option<String>) -> bool {
    machine matches Some(name) ==> name@.len() > 0 && !name@.contains('.') && text::trimmed(name@)
        == name@
}

/// Everything a node needs to know before it dials.
pub struct RunConfig {
    /// The websocket URL. The enrollment endpoints are derived from it, so this is the only address
    /// a node is configured with.
    pub url: String,
    pub node_name: String,
    /// Names the credential file, so one machine can hold separate identities against the same
    /// deployment without them clobbering each other.
    pub profile: String,
    /// What this node *asks* for at enrollment. The user narrows it at approval time and may grant
    /// none of it.
    pub scopes: Vec<String>,
    /// Whether `$ZYRIS_SCOPES` is where the scopes came from.
    pub scopes_pinned: bool,
    pub backoff_min: Duration,
    pub backoff_max: Duration,
    pub stable_after: Duration,
}

/// The name of a node, given that of its machine.
pub open spec fn named_after(machine: Option<String>) -> Seq<char> {
    match machine {
        Some(name) => name@,
        None => FALLBACK_NODE_NAME@,
    }
}

/// A variable where it is filled, else a fallback.
pub open spec fn filled_or(env: Env, name: Seq<char>, fallback: Seq<char>) -> Seq<char> {
    match env.filled_text(name) {
        Some(value) => value,
        None => fallback,
    }
}

/// The scopes that this node asks to be granted where the operator does not say which: enough to
/// open a healing session and to drive it.
pub open spec fn node_scopes() -> Seq<Seq<char>> {
    seq![
        "agents:read"@,
        "sessions:write"@,
        "sessions:read"@,
        "projects:read"@,
        "jobs:write"@,
    ]
}

/// The scopes that are asked for, given those that were read.
pub open spec fn requested(env: Env, read: Seq<Seq<char>>) -> Seq<Seq<char>> {
    if env.bytes("ZYRIS_SCOPES"@) is None {
        node_scopes()
    } else {
        read
    }
}

/// What a platform is called at enrollment.
pub open spec fn platform_of(os: Seq<char>) -> Seq<char> {
    if os == "linux"@ || os == "macos"@ || os == "windows"@ {
        os
    } else {
        "other"@
    }
}

impl RunConfig {
    /// Whether the timings are those of a node that nobody tuned.
    pub open spec fn has_default_timing(&self) -> bool {
        &&& self.backoff_min@ == 1_000_000_000
        &&& self.backoff_max@ == 30_000_000_000
        &&& self.stable_after@ == 30_000_000_000
    }

    /// Whether this is the configuration of a node that nobody configured, on a machine of the
    /// given name.
    pub open spec fn is_default(&self, machine: Option<String>) -> bool {
        &&& self.url@ == "wss://attacca.cc/api/zyris/v1/ws"@
        &&& self.node_name@ == named_after(machine)
        &&& self.profile@ == "default"@
        &&& self.scopes@.len() == 0
        &&& !self.scopes_pinned
        &&& self.has_default_timing()
    }

    /// Whether this is the configuration that the environment gives, on a machine of the given
    /// name.
    pub open spec fn is_read_from(&self, env: Env, machine: Option<String>) -> bool {
        &&& self.url@ == filled_or(
            env,
            "ZYRIS_SERVER_URL"@,
            "wss://attacca.cc/api/zyris/v1/ws"@,
        )
        &&& self.node_name@ == filled_or(env, "ZYRIS_NODE_NAME"@, named_after(machine))
        &&& self.profile@ == filled_or(env, "ZYRIS_PROFILE"@, "default"@)
        &&& self.scopes_pinned == env.text("ZYRIS_SCOPES"@) is Some
        &&& self.scopes.deep_view() == match env.text("ZYRIS_SCOPES"@) {
            Some(raw) => text::listed(raw),
            None => Seq::empty(),
        }
        &&& self.has_default_timing()
    }

    /// The configuration of a node that nobody configured, on a machine of the given name.
    pub fn default_on(machine: Option<String>) -> (out: RunConfig)
        ensures
            out.is_default(machine),
    {
        let node_name = match machine {
            Some(name) => name,
            None => FALLBACK_NODE_NAME.to_owned(),
        };
        RunConfig {
            url: default_server_url(),
            node_name,
            profile: "default".to_owned(),
            scopes: Vec::new(),
            scopes_pinned: false,
            backoff_min: Duration::from_secs(DEFAULT_BACKOFF_MIN_SECS),
            backoff_max: Duration::from_secs(DEFAULT_BACKOFF_MAX_SECS),
            stable_after: Duration::from_secs(DEFAULT_STABLE_AFTER_SECS),
        }
    }

    /// The configuration that the environment gives, on a machine of the given name.
    pub fn from_env_on(env: &Env, machine: Option<String>) -> (out: RunConfig)
        ensures
            out.is_read_from(*env, machine),
    {
        let default = RunConfig::default_on(machine);
        let (scopes, scopes_pinned) = match env.var("ZYRIS_SCOPES") {
            Some(raw) => (list_of(raw.as_str()), true),
            None => (default.scopes, false),
        };
        assert(!scopes_pinned ==> scopes.deep_view() =~= Seq::<Seq<char>>::empty());
        RunConfig {
            url: env.env_or("ZYRIS_SERVER_URL", default.url),
            node_name: env.env_or("ZYRIS_NODE_NAME", default.node_name),
            profile: env.env_or("ZYRIS_PROFILE", default.profile),
            scopes,
            scopes_pinned,
            backoff_min: default.backoff_min,
            backoff_max: default.backoff_max,
            stable_after: default.stable_after,
        }
    }

    /// Read the `ZYRIS_*` variables, falling back to the default for each.
    ///
    /// | Variable | Falls back to |
    /// |---|---|
    /// | `ZYRIS_SERVER_URL` | `zyris::DEFAULT_SERVER_URL` |
    /// | `ZYRIS_NODE_NAME` | this machine's hostname |
    /// | `ZYRIS_PROFILE` | `default` |
    /// | `ZYRIS_SCOPES` | nothing |
    pub fn from_env(env: &Env) -> (out: RunConfig)
        ensures
            exists|machine: Option<String>|
                could_be_named(machine) && #[trigger] out.is_read_from(*env, machine),
    {
        RunConfig::from_env_on(env, machine_name())
    }

    /// Whether `$ZYRIS_SCOPES` is where [`scopes`](Self::scopes) came from.
    ///
    /// It is the only record of *who decided*: an operator who set the variable outranks the list
    /// compiled into this node.
    pub fn scopes_pinned(&self) -> (yes: bool)
        ensures
            yes == self.scopes_pinned,
    {
        self.scopes_pinned
    }

    /// Asks for this node's own scopes, unless the operator set `$ZYRIS_SCOPES`: that decides, even
    /// where it holds nothing. Has to happen before anything copies the scopes.
    pub fn request_scopes(self, env: &Env) -> (out: RunConfig)
        ensures
            out.scopes.deep_view() == requested(*env, self.scopes.deep_view()),
            out.url == self.url,
            out.node_name == self.node_name,
            out.profile == self.profile,
            out.scopes_pinned == self.scopes_pinned,
            out.backoff_min == self.backoff_min,
            out.backoff_max == self.backoff_max,
            out.stable_after == self.stable_after,
    {
        let mut out = self;
        if env.var_os("ZYRIS_SCOPES").is_none() {
            let scopes = vec![
                "agents:read".to_owned(),
                "sessions:write".to_owned(),
                "sessions:read".to_owned(),
                "projects:read".to_owned(),
                "jobs:write".to_owned(),
            ];
            assert(scopes.deep_view() =~= node_scopes());
            out.scopes = scopes;
        }
        out
    }

    /// What this machine reports itself as at enrollment, given the name of its system. A hint the
    /// server never verifies.
    pub fn platform(&self, os: &str) -> (out: &'static str)
        ensures
            out@ == platform_of(os@),
            out@ == if os@ == "linux"@ || os@ == "macos"@ || os@ == "windows"@ {
                os@
            } else {
                "other"@
            },
    {
        if same(os, "linux") {
            "linux"
        } else if same(os, "macos") {
            "macos"
        } else if same(os, "windows") {
            "windows"
        } else {
            "other"
        }
    }
}

impl Default for RunConfig {
    fn default() -> (out: RunConfig)
        ensures
            exists|machine: Option<String>|
                could_be_named(machine) && #[trigger] out.is_default(machine),
    {
        RunConfig::default_on(machine_name())
    }
}

/// An operator who set the scopes decides them: what is asked for is then exactly what the
/// variable lists, and it is on record that they decided.
pub proof fn the_operators_scopes_win(
    env: Env,
    machine: Option<String>,
    read: RunConfig,
    raw: Seq<char>,
)
    requires
        env.text("ZYRIS_SCOPES"@) == Some(raw),
        read.is_read_from(env, machine),
    ensures
        requested(env, read.scopes.deep_view()) == text::listed(raw),
        read.scopes_pinned,
{
}

/// A node always has a name, whatever the environment and the machine are.
pub proof fn a_node_has_a_name(env: Env, machine: Option<String>, read: RunConfig)
    requires
        could_be_named(machine),
        read.is_read_from(env, machine),
    ensures
        read.node_name@.len() > 0,
{
    reveal_strlit("zyris-node");
    if let Some(name) = env.text("ZYRIS_NODE_NAME"@) {
        if name.len() == 0 {
            assert(text::trimmed(name).len() == 0);
        }
    }
}

// ---------------------------------------------------------------------------------------------
// How it ends
// ---------------------------------------------------------------------------------------------

/// A node could not be started, or could not keep running.
#[derive(Debug)]
pub enum RunError {
    Credentials(CredentialsError),
    /// The node itself could not be assembled, and why: two capabilities claiming one name, a
    /// descriptor the wire rejects.
    Build(String),
    /// The server refused this node in a way retrying will not fix: a revoked credential, an
    /// unsupported protocol version, a build with no TLS provider compiled in.
    Refused(String),
}

/// What a [`RunError`] says.
pub enum EndView {
    Credentials(TroubleView),
    Build(Seq<char>),
    Refused(Seq<char>),
}

impl View for RunError {
    type V = EndView;

    open spec fn view(&self) -> EndView {
        match self {
            RunError::Credentials(error) => EndView::Credentials(error@),
            RunError::Build(why) => EndView::Build(why@),
            RunError::Refused(why) => EndView::Refused(why@),
        }
    }
}

impl From<CredentialsError> for RunError {
    fn from(error: CredentialsError) -> (out: RunError) {
        RunError::Credentials(error)
    }
}

impl vstd::std_specs::convert::FromSpecImpl<CredentialsError> for RunError {
    open spec fn obeys_from_spec() -> bool {
        true
    }

    open spec fn from_spec(error: CredentialsError) -> RunError {
        RunError::Credentials(error)
    }
}

/// What is shown of how it ended.
pub open spec fn ending(end: EndView) -> Seq<char> {
    match end {
        EndView::Credentials(trouble) => credentials::message_of(trouble),
        EndView::Build(why) => "could not build the node: "@ + why,
        EndView::Refused(why) => "the server refused this node: "@ + why,
    }
}

/// Whether a person has to do something before another start can go better.
pub open spec fn needs_a_person(end: EndView) -> bool {
    end is Build || (end matches EndView::Credentials(trouble) && trouble is NeedsOperator)
}

/// The status that the process ends with.
pub open spec fn status_of(end: EndView) -> i32 {
    if needs_a_person(end) {
        2
    } else {
        1
    }
}

impl RunError {
    /// What is shown of the failure.
    pub fn message(&self) -> (out: String)
        ensures
            out@ == ending(self@),
    {
        match self {
            RunError::Credentials(error) => error.message(),
            RunError::Build(why) => {
                let mut out = "could not build the node: ".to_owned();
                out.append(why.as_str());
                out
            },
            RunError::Refused(why) => {
                let mut out = "the server refused this node: ".to_owned();
                out.append(why.as_str());
                out
            },
        }
    }

    /// Exit 2 when a human has to do something, 1 otherwise.
    ///
    /// The distinction is what stops a supervisor from restart-looping on a condition no restart
    /// can fix, printing a fresh enrollment code into a log nobody reads each time around.
    pub fn exit_code(&self) -> (code: i32)
        ensures
            code == status_of(self@),
            code == if needs_a_person(self@) {
                2i32
            } else {
                1i32
            },
    {
        match self {
            RunError::Credentials(CredentialsError::NeedsOperator(_)) => 2,
            RunError::Build(_) => 2,
            _ => 1,
        }
    }
}

/// The status that the process leaves with: 0 where it was asked to stop.
pub fn exit_status(outcome: &Result<(), RunError>) -> (code: i32)
    ensures
        outcome matches Err(error) ==> code == status_of(error@),
        code == match outcome {
            Ok(_) => 0i32,
            Err(error) => if needs_a_person(error@) {
                2i32
            } else {
                1i32
            },
        },
{
    match outcome {
        Ok(_) => 0,
        Err(error) => error.exit_code(),
    }
}

// ---------------------------------------------------------------------------------------------
// What a refused dial means
// ---------------------------------------------------------------------------------------------

/// Why a dial came to nothing.
#[derive(Debug)]
pub enum ConnectError {
    /// The token was judged and refused.
    Unauthorized,
    /// The credential was revoked.
    Revoked,
    /// Negotiation failed. Retrying gets the same answer; a different build does not.
    VersionMismatch { ours: String, theirs: Option<String> },
    /// This build cannot speak TLS.
    NoTlsProvider,
    /// The network or the server, briefly, and what was said.
    Unreachable(String),
}

/// What a refused dial means to the loop.
#[derive(Debug, Clone, Copy, PartialEq, Eq)]
pub enum Refusal {
    /// Worth one replacement of the credential before giving up.
    Rotate,
    /// Retrying gets the same answer. A different build or a different person fixes it.
    Fatal,
    /// The network or the server, briefly. Back off and dial again.
    Backoff,
}

/// What a refused dial means to the loop.
pub open spec fn meaning(error: ConnectError) -> Refusal {
    match error {
        ConnectError::Unauthorized => Refusal::Rotate,
        ConnectError::Revoked => Refusal::Rotate,
        ConnectError::VersionMismatch { .. } => Refusal::Fatal,
        ConnectError::NoTlsProvider => Refusal::Fatal,
        ConnectError::Unreachable(_) => Refusal::Backoff,
    }
}

impl Refusal {
    /// What a refused dial means to the loop.
    pub fn of(error: &ConnectError) -> (out: Refusal)
        ensures
            out == meaning(*error),
    {
        match error {
            ConnectError::Unauthorized => Refusal::Rotate,
            ConnectError::Revoked => Refusal::Rotate,
            ConnectError::VersionMismatch { .. } => Refusal::Fatal,
            ConnectError::NoTlsProvider => Refusal::Fatal,
            ConnectError::Unreachable(_) => Refusal::Backoff,
        }
    }
}

// ---------------------------------------------------------------------------------------------
// The loop's decisions
// ---------------------------------------------------------------------------------------------

/// What to do next.
pub enum Next {
    /// Ask for the bearer, then tell [`Dialer::on_bearer`].
    Ask,
    /// Dial with this bearer. Tell [`Dialer::on_closed`] once an established connection is gone,
    /// or [`Dialer::on_refused`] where none was established.
    Dial(String),
    /// Ask the credential source to forget what was refused, then tell [`Dialer::on_forgotten`].
    Forget,
    /// Wait for about this long (see [`jitter`]), then ask for the bearer.
    Wait(Duration),
    /// Give up.
    Stop(RunError),
}

/// What a [`Next`] says.
pub enum NextView {
    Ask,
    Dial(Seq<char>),
    Forget,
    Wait(nat),
    Stop(EndView),
}

impl View for Next {
    type V = NextView;

    open spec fn view(&self) -> NextView {
        match self {
            Next::Ask => NextView::Ask,
            Next::Dial(bearer) => NextView::Dial(bearer@),
            Next::Forget => NextView::Forget,
            Next::Wait(span) => NextView::Wait(span@),
            Next::Stop(error) => NextView::Stop(error@),
        }
    }
}

/// How the loop paces itself, in nanoseconds: its shortest and its longest backoff, and how long a
/// connection has to last to count as healthy.
pub struct Pace {
    pub min: nat,
    pub max: nat,
    pub stable: nat,
}

/// Where the loop stands: the backoff it takes next, and whether a refusal has already been
/// answered by replacing the credential.
pub struct Standing {
    pub backoff: nat,
    pub rotated: bool,
}

/// A backoff after one more was taken.
pub open spec fn widened(pace: Pace, backoff: nat) -> nat {
    if 2 * backoff <= pace.max {
        2 * backoff
    } else {
        pace.max
    }
}

/// Wait, and widen the backoff for the next time.
pub open spec fn waiting(pace: Pace, at: Standing) -> (Standing, NextView) {
    (
        Standing { backoff: widened(pace, at.backoff), rotated: at.rotated },
        NextView::Wait(at.backoff),
    )
}

/// After the bearer was asked for. A credential source that cannot be reached is a startup race,
/// not a dead node.
pub open spec fn after_bearer(
    pace: Pace,
    at: Standing,
    bearer: Result<Seq<char>, TroubleView>,
) -> (Standing, NextView) {
    match bearer {
        Ok(bearer) => (at, NextView::Dial(bearer)),
        Err(TroubleView::Unavailable(_)) => waiting(pace, at),
        Err(trouble) => (at, NextView::Stop(EndView::Credentials(trouble))),
    }
}

/// After a connection was established and lost again.
pub open spec fn after_connection(pace: Pace, at: Standing, up: nat) -> (Standing, NextView) {
    waiting(
        pace,
        Standing {
            backoff: if up >= pace.stable {
                pace.min
            } else {
                at.backoff
            },
            rotated: false,
        },
    )
}

/// After a dial came to nothing.
pub open spec fn after_refusal(
    pace: Pace,
    at: Standing,
    error: ConnectError,
    shown: Seq<char>,
) -> (Standing, NextView) {
    match meaning(error) {
        Refusal::Rotate => if at.rotated {
            (at, NextView::Stop(EndView::Refused(shown)))
        } else {
            (Standing { backoff: at.backoff, rotated: true }, NextView::Forget)
        },
        Refusal::Fatal => (at, NextView::Stop(EndView::Refused(shown))),
        Refusal::Backoff => waiting(pace, at),
    }
}

/// After the credential source was asked to forget what was refused. Where it could not be
/// reached, nothing was replaced and the one attempt is not spent.
pub open spec fn after_forgetting(
    pace: Pace,
    at: Standing,
    again: Result<bool, TroubleView>,
    shown: Seq<char>,
) -> (Standing, NextView) {
    match again {
        Ok(true) => (at, NextView::Ask),
        Ok(false) => (at, NextView::Stop(EndView::Refused(shown))),
        Err(TroubleView::Unavailable(_)) => waiting(
            pace,
            Standing { backoff: at.backoff, rotated: false },
        ),
        Err(trouble) => (at, NextView::Stop(EndView::Credentials(trouble))),
    }
}

/// The backoff never leaves its bounds.
pub proof fn the_backoff_stays_within_its_bounds(
    pace: Pace,
    at: Standing,
    bearer: Result<Seq<char>, TroubleView>,
    up: nat,
    error: ConnectError,
    again: Result<bool, TroubleView>,
    shown: Seq<char>,
)
    requires
        pace.min <= at.backoff <= pace.max,
    ensures
        pace.min <= after_bearer(pace, at, bearer).0.backoff <= pace.max,
        pace.min <= after_connection(pace, at, up).0.backoff <= pace.max,
        pace.min <= after_refusal(pace, at, error, shown).0.backoff <= pace.max,
        pace.min <= after_forgetting(pace, at, again, shown).0.backoff <= pace.max,
{
}

/// A connection that lasted long enough restarts the backoff from the bottom.
pub proof fn a_healthy_connection_resets_the_backoff(pace: Pace, at: Standing, up: nat)
    requires
        up >= pace.stable,
    ensures
        after_connection(pace, at, up).1 == NextView::Wait(pace.min),
        after_connection(pace, at, up).0.backoff == widened(pace, pace.min),
{
}

/// The wait number `k`, counted from zero: the shortest backoff doubled `k` times, the longest one
/// at most. The first wait is the shortest backoff, whatever the longest one is.
pub open spec fn nth_wait(pace: Pace, k: nat) -> nat {
    if k == 0 || pace.min * power2::pow2(k) <= pace.max {
        pace.min * power2::pow2(k)
    } else {
        pace.max
    }
}

/// Something that is waited out.
pub enum Outage {
    /// The credential source could not be reached.
    NoBearer(Seq<char>),
    /// A dial came to nothing, for a reason that may pass.
    NoServer(ConnectError, Seq<char>),
    /// A connection was lost after so many nanoseconds, too soon to count as stable.
    Dropped(nat),
    /// The credential source could not be reached after a refusal.
    NotForgotten(Seq<char>, Seq<char>),
}

/// Whether an outage is one that is waited out from where the backoff stands.
pub open spec fn is_waited_out(pace: Pace, outage: Outage) -> bool {
    match outage {
        Outage::NoServer(error, _) => meaning(error) is Backoff,
        Outage::Dropped(up) => up < pace.stable,
        _ => true,
    }
}

/// After one outage.
pub open spec fn after_outage(pace: Pace, at: Standing, outage: Outage) -> (Standing, NextView) {
    match outage {
        Outage::NoBearer(why) => after_bearer(pace, at, Err(TroubleView::Unavailable(why))),
        Outage::NoServer(error, shown) => after_refusal(pace, at, error, shown),
        Outage::Dropped(up) => after_connection(pace, at, up),
        Outage::NotForgotten(why, shown) => after_forgetting(
            pace,
            at,
            Err(TroubleView::Unavailable(why)),
            shown,
        ),
    }
}

/// Where the loop stands after a row of outages.
pub open spec fn after_outages(pace: Pace, at: Standing, outages: Seq<Outage>) -> Standing
    decreases outages.len(),
{
    if outages.len() == 0 {
        at
    } else {
        after_outage(pace, after_outages(pace, at, outages.drop_last()), outages.last()).0
    }
}

/// The backoff doubles with every outage, whatever kind each one is of: behind a row of outages
/// that begins where wait number `first` is due, the wait that is due is as many numbers later.
/// A loop at its start is where number 0 is due, and one that just lost a stable connection and
/// waited for it is where number 1 is.
pub proof fn the_backoff_doubles_up_to_its_bound(
    pace: Pace,
    at: Standing,
    first: nat,
    outages: Seq<Outage>,
    next: Outage,
    up: nat,
)
    requires
        at.backoff == nth_wait(pace, first),
        forall|i: int| 0 <= i < outages.len() ==> is_waited_out(pace, #[trigger] outages[i]),
        is_waited_out(pace, next),
        up >= pace.stable,
    ensures
        after_outage(pace, after_outages(pace, at, outages), next).1 == NextView::Wait(
            nth_wait(pace, first + outages.len()),
        ),
        nth_wait(pace, 0) == pace.min,
        after_connection(pace, at, up).0.backoff == nth_wait(pace, 1),
{
    lemma_outages_widen(pace, at, first, outages);
    power2::lemma2_to64();
    lemma_next_wait(pace, 0);
}

proof fn lemma_outages_widen(pace: Pace, at: Standing, first: nat, outages: Seq<Outage>)
    requires
        at.backoff == nth_wait(pace, first),
        forall|i: int| 0 <= i < outages.len() ==> is_waited_out(pace, #[trigger] outages[i]),
    ensures
        after_outages(pace, at, outages).backoff == nth_wait(pace, first + outages.len()),
    decreases outages.len(),
{
    if outages.len() > 0 {
        let before = outages.drop_last();
        assert forall|i: int| 0 <= i < before.len() implies is_waited_out(
            pace,
            #[trigger] before[i],
        ) by {
            assert(before[i] == outages[i]);
        }
        lemma_outages_widen(pace, at, first, before);
        lemma_next_wait(pace, first + before.len());
        assert(is_waited_out(pace, outages[outages.len() - 1]));
    }
}

proof fn lemma_next_wait(pace: Pace, k: nat)
    ensures
        widened(pace, nth_wait(pace, k)) == nth_wait(pace, k + 1),
{
    let power = power2::pow2(k);
    power2::lemma_pow2_unfold(k + 1);
    power2::lemma2_to64();
    assert(pace.min * (2 * power) == 2 * (pace.min * power)) by (nonlinear_arith);
}

/// A refusal is answered by replacing the credential once: where the next dial is refused as well,
/// without a connection in between, the loop stops.
pub proof fn a_second_refusal_stops(
    pace: Pace,
    at: Standing,
    first: ConnectError,
    first_shown: Seq<char>,
    bearer: Seq<char>,
    second: ConnectError,
    second_shown: Seq<char>,
)
    requires
        meaning(first) is Rotate,
        meaning(second) is Rotate,
        !at.rotated,
    ensures
        ({
            let (asked, first_next) = after_refusal(pace, at, first, first_shown);
            let (replaced, then) = after_forgetting(pace, asked, Ok(true), first_shown);
            let (dialling, dial) = after_bearer(pace, replaced, Ok(bearer));
            &&& first_next == NextView::Forget
            &&& then == NextView::Ask
            &&& dial == NextView::Dial(bearer)
            &&& after_refusal(pace, dialling, second, second_shown).1 == NextView::Stop(
                EndView::Refused(second_shown),
            )
        }),
{
}

/// A connection in between gives the one attempt back.
pub proof fn a_connection_gives_the_attempt_back(
    pace: Pace,
    at: Standing,
    up: nat,
    error: ConnectError,
    shown: Seq<char>,
)
    requires
        meaning(error) is Rotate,
    ensures
        after_refusal(pace, after_connection(pace, at, up).0, error, shown).1 == NextView::Forget,
{
}

/// What cannot be reached never ends the loop: neither the server, nor the credential source,
/// before or after a refusal.
pub proof fn an_outage_never_stops_the_loop(
    pace: Pace,
    at: Standing,
    why: Seq<char>,
    said: String,
    shown: Seq<char>,
)
    ensures
        after_bearer(pace, at, Err(TroubleView::Unavailable(why))).1 == NextView::Wait(at.backoff),
        after_refusal(pace, at, ConnectError::Unreachable(said), shown).1 == NextView::Wait(
            at.backoff,
        ),
        after_forgetting(pace, at, Err(TroubleView::Unavailable(why)), shown).1 == NextView::Wait(
            at.backoff,
        ),
        !after_forgetting(pace, at, Err(TroubleView::Unavailable(why)), shown).0.rotated,
{
}

/// The loop's decisions, and what it has to remember for them.
pub struct Dialer {
    min: Duration,
    max: Duration,
    stable: Duration,
    backoff: Duration,
    rotated: bool,
}

impl Dialer {
    #[verifier::type_invariant]
    spec fn can_widen(self) -> bool {
        &&& 2 * self.min@ <= time::longest()
        &&& 2 * self.max@ <= time::longest()
        &&& 2 * self.backoff@ <= time::longest()
    }

    /// How the loop paces itself.
    pub closed spec fn pace(&self) -> Pace {
        Pace { min: self.min@, max: self.max@, stable: self.stable@ }
    }

    /// Where the loop stands.
    pub closed spec fn standing(&self) -> Standing {
        Standing { backoff: self.backoff@, rotated: self.rotated }
    }

    /// A loop at its start.
    pub fn new(config: &RunConfig) -> (out: Dialer)
        requires
            2 * config.backoff_min@ <= time::longest(),
            2 * config.backoff_max@ <= time::longest(),
        ensures
            out.pace() == (Pace {
                min: config.backoff_min@,
                max: config.backoff_max@,
                stable: config.stable_after@,
            }),
            out.standing() == (Standing { backoff: config.backoff_min@, rotated: false }),
    {
        Dialer {
            min: config.backoff_min,
            max: config.backoff_max,
            stable: config.stable_after,
            backoff: config.backoff_min,
            rotated: false,
        }
    }

    fn wait_then_widen(&mut self, backoff: Duration, rotated: bool) -> (next: Next)
        requires
            2 * backoff@ <= time::longest(),
        ensures
            final(self).pace() == old(self).pace(),
            (final(self).standing(), next@) == waiting(
                old(self).pace(),
                Standing { backoff: backoff@, rotated },
            ),
    {
        proof {
            use_type_invariant(&*self);
        }
        let wider = backoff.doubled().shorter(self.max);
        *self = Dialer {
            min: self.min,
            max: self.max,
            stable: self.stable,
            backoff: wider,
            rotated,
        };
        Next::Wait(backoff)
    }

    /// The bearer was asked for.
    pub fn on_bearer(&mut self, bearer: Result<String, CredentialsError>) -> (next: Next)
        ensures
            final(self).pace() == old(self).pace(),
            (final(self).standing(), next@) == after_bearer(
                old(self).pace(),
                old(self).standing(),
                credentials::bearer_view(bearer),
            ),
    {
        proof {
            use_type_invariant(&*self);
        }
        match bearer {
            Ok(bearer) => Next::Dial(bearer),
            Err(CredentialsError::Unavailable(_)) => {
                let backoff = self.backoff;
                let rotated = self.rotated;
                self.wait_then_widen(backoff, rotated)
            },
            Err(error) => Next::Stop(RunError::from(error)),
        }
    }

    /// A connection was established, stayed up for so long, and is gone.
    pub fn on_closed(&mut self, up: Duration) -> (next: Next)
        ensures
            final(self).pace() == old(self).pace(),
            (final(self).standing(), next@) == after_connection(
                old(self).pace(),
                old(self).standing(),
                up@,
            ),
    {
        proof {
            use_type_invariant(&*self);
        }
        let backoff = if up.reaches(&self.stable) {
            self.min
        } else {
            self.backoff
        };
        self.wait_then_widen(backoff, false)
    }

    /// The dial came to nothing; `shown` is what is shown of the error.
    pub fn on_refused(&mut self, error: &ConnectError, shown: &str) -> (next: Next)
        ensures
            final(self).pace() == old(self).pace(),
            (final(self).standing(), next@) == after_refusal(
                old(self).pace(),
                old(self).standing(),
                *error,
                shown@,
            ),
    {
        proof {
            use_type_invariant(&*self);
        }
        match Refusal::of(error) {
            Refusal::Rotate => if self.rotated {
                Next::Stop(RunError::Refused(shown.to_owned()))
            } else {
                *self = Dialer {
                    min: self.min,
                    max: self.max,
                    stable: self.stable,
                    backoff: self.backoff,
                    rotated: true,
                };
                Next::Forget
            },
            Refusal::Fatal => Next::Stop(RunError::Refused(shown.to_owned())),
            Refusal::Backoff => {
                let backoff = self.backoff;
                let rotated = self.rotated;
                self.wait_then_widen(backoff, rotated)
            },
        }
    }

    /// The credential source was asked to forget what was refused, and says whether another dial is
    /// worth attempting; `shown` is what is shown of the refusal.
    pub fn on_forgotten(&mut self, again: Result<bool, CredentialsError>, shown: &str) -> (next:
        Next)
        ensures
            final(self).pace() == old(self).pace(),
            (final(self).standing(), next@) == after_forgetting(
                old(self).pace(),
                old(self).standing(),
                match again {
                    Ok(again) => Ok(again),
                    Err(error) => Err(error@),
                },
                shown@,
            ),
    {
        proof {
            use_type_invariant(&*self);
        }
        match again {
            Ok(true) => Next::Ask,
            Ok(false) => Next::Stop(RunError::Refused(shown.to_owned())),
            Err(CredentialsError::Unavailable(_)) => {
                let backoff = self.backoff;
                self.wait_then_widen(backoff, false)
            },
            Err(error) => Next::Stop(RunError::from(error)),
        }
    }
}

// ---------------------------------------------------------------------------------------------
// Jitter
// ---------------------------------------------------------------------------------------------

/// `RandomState::new` gives a hasher state with fresh keys. Nothing is stated of it: the keys are
/// random.
pub assume_specification[ RandomState::new ]() -> RandomState;

/// `BuildHasher::hash_one` hashes one byte with the given keys. Nothing is stated of the hash: it
/// depends on the keys.
#[verifier::external_body]
fn roll(state: &RandomState) -> u64 {
    state.hash_one(0u8)
}

/// A span, changed by between a fifth less and a fifth more, to the nearest nanosecond.
pub open spec fn jittered(base: nat, roll: u64) -> nat {
    (base * (800 + roll as nat % 400) + 500) / 1000
}

/// A span, changed by as much as the roll says.
pub fn jitter_with(base: Duration, roll: u64) -> (out: Duration)
    requires
        6 * base@ <= 5 * time::longest(),
    ensures
        out@ == jittered(base@, roll),
{
    let factor: u128 = 800 + (roll % 400) as u128;
    let nanos: u128 = base.as_nanos();
    proof {
        jitter_stays_within_a_fifth(base@, roll);
        assert(nanos * factor <= nanos * 1200) by (nonlinear_arith)
            requires
                factor <= 1200,
        ;
        assert(factor as nat == 800 + roll as nat % 400);
    }
    let product: u128 = nanos * factor;
    let near: u128 = (product + 500) / 1000;
    Duration::from_nanos(near)
}

/// What comes of jitter is never more than a fifth off, to the nearest nanosecond.
pub proof fn jitter_stays_within_a_fifth(base: nat, roll: u64)
    ensures
        8 * base <= 10 * jittered(base, roll) + 5,
        10 * jittered(base, roll) <= 12 * base + 5,
{
    let factor = 800 + roll as nat % 400;
    assert(800 <= factor <= 1199);
    assert(base * 800 <= base * factor) by (nonlinear_arith)
        requires
            800 <= factor,
    ;
    assert(base * factor <= base * 1199) by (nonlinear_arith)
        requires
            factor <= 1199,
    ;
}

/// ±20%, so a server restart does not bring every node back in the same instant.
pub fn jitter(base: Duration) -> (out: Duration)
    requires
        6 * base@ <= 5 * time::longest(),
    ensures
        exists|roll: u64| out@ == jittered(base@, roll),
{
    let state = RandomState::new();
    jitter_with(base, roll(&state))
}

// ---------------------------------------------------------------------------------------------
// What the loop keeps to
// ---------------------------------------------------------------------------------------------

/// What each way of not getting connected leads to: a credential that was judged and refused, or
/// revoked, is replaced once and not twice; what only another build can mend stops the loop at once;
/// what may pass is waited out.
pub proof fn what_a_refusal_leads_to(
    pace: Pace,
    backoff: nat,
    rotated: bool,
    error: ConnectError,
    shown: Seq<char>,
)
    ensures
        ({
            let at = Standing { backoff, rotated };
            let (then, next) = after_refusal(pace, at, error, shown);
            match error {
                ConnectError::Unauthorized | ConnectError::Revoked => if rotated {
                    next == NextView::Stop(EndView::Refused(shown))
                } else {
                    next is Forget && then.rotated && then.backoff == backoff
                },
                ConnectError::VersionMismatch { .. } | ConnectError::NoTlsProvider => next
                    == NextView::Stop(EndView::Refused(shown)),
                ConnectError::Unreachable(_) => next == NextView::Wait(backoff) && then.rotated
                    == rotated,
            }
        }),
        meaning(ConnectError::Unauthorized) is Rotate,
        meaning(ConnectError::Revoked) is Rotate,
        meaning(ConnectError::NoTlsProvider) is Fatal,
        error is VersionMismatch ==> meaning(error) is Fatal,
        error is Unreachable ==> meaning(error) is Backoff,
{
}

/// A bearer is dialled with as it is; a source that cannot be reached is waited for, and any other
/// trouble with it stops the loop, as does a source that has nothing else to offer. With something
/// else to offer it is asked again at once.
pub proof fn what_a_credential_source_leads_to(
    pace: Pace,
    at: Standing,
    bearer: Seq<char>,
    trouble: TroubleView,
    shown: Seq<char>,
)
    ensures
        after_bearer(pace, at, Ok(bearer)) == (at, NextView::Dial(bearer)),
        trouble is Unavailable ==> after_bearer(pace, at, Err(trouble)).1 == NextView::Wait(
            at.backoff,
        ) && after_forgetting(pace, at, Err(trouble), shown).1 == NextView::Wait(at.backoff),
        !(trouble is Unavailable) ==> after_bearer(pace, at, Err(trouble)).1 == NextView::Stop(
            EndView::Credentials(trouble),
        ) && after_forgetting(pace, at, Err(trouble), shown).1 == NextView::Stop(
            EndView::Credentials(trouble),
        ),
        after_forgetting(pace, at, Ok(true), shown) == (at, NextView::Ask),
        after_forgetting(pace, at, Ok(false), shown).1 == NextView::Stop(EndView::Refused(shown)),
{
}

/// After a wait the next one is twice as long, up to the longest. A connection that was lost is
/// waited for from the shortest wait exactly where it lasted long enough, and gives the one
/// replacement of the credential back however long it lasted.
pub proof fn a_wait_is_doubled_and_a_stable_connection_resets_it(pace: Pace, at: Standing, up: nat)
    ensures
        2 * at.backoff <= pace.max ==> waiting(pace, at).0.backoff == 2 * at.backoff,
        2 * at.backoff > pace.max ==> waiting(pace, at).0.backoff == pace.max,
        waiting(pace, at).1 == NextView::Wait(at.backoff),
        up >= pace.stable ==> after_connection(pace, at, up).1 == NextView::Wait(pace.min),
        up < pace.stable ==> after_connection(pace, at, up).1 == NextView::Wait(at.backoff),
        !after_connection(pace, at, up).0.rotated,
{
}

/// The loop ends with the status 2 exactly where a person has to do something: where the credential
/// source says so, or the node cannot be assembled.
pub proof fn only_what_needs_a_person_ends_with_two(why: Seq<char>)
    ensures
        needs_a_person(EndView::Credentials(TroubleView::NeedsOperator(why))),
        needs_a_person(EndView::Build(why)),
        !needs_a_person(EndView::Credentials(TroubleView::Fatal(why))),
        !needs_a_person(EndView::Credentials(TroubleView::Unavailable(why))),
        !needs_a_person(EndView::Refused(why)),
        ending(EndView::Refused(why)) == "the server refused this node: "@ + why,
        ending(EndView::Build(why)) == "could not build the node: "@ + why,
        ending(EndView::Credentials(TroubleView::NeedsOperator(why))) == why,
        ending(EndView::Credentials(TroubleView::Fatal(why))) == why,
        ending(EndView::Credentials(TroubleView::Unavailable(why))) == why,
{
}

/// Each variable sets its own part of the configuration, and what is not set has its default.
pub proof fn each_variable_configures_its_own_part(
    env: Env,
    machine: Option<String>,
    read: RunConfig,
    s: Seq<char>,
)
    requires
        read.is_read_from(env, machine),
    ensures
        env.filled_text("ZYRIS_SERVER_URL"@) == Some(s) ==> read.url@ == s,
        env.filled_text("ZYRIS_SERVER_URL"@) is None ==> read.url@
            == "wss://attacca.cc/api/zyris/v1/ws"@,
        env.filled_text("ZYRIS_NODE_NAME"@) == Some(s) ==> read.node_name@ == s,
        env.filled_text("ZYRIS_NODE_NAME"@) is None && machine is Some ==> read.node_name@
            == machine->0@,
        env.filled_text("ZYRIS_NODE_NAME"@) is None && machine is None ==> read.node_name@
            == "zyris-node"@,
        env.filled_text("ZYRIS_PROFILE"@) == Some(s) ==> read.profile@ == s,
        env.filled_text("ZYRIS_PROFILE"@) is None ==> read.profile@ == "default"@,
        env.text("ZYRIS_SCOPES"@) == Some(s) ==> read.scopes_pinned && read.scopes.deep_view()
            == text::listed(s),
        env.text("ZYRIS_SCOPES"@) is None ==> !read.scopes_pinned && read.scopes@.len() == 0,
        read.backoff_min@ == 1_000_000_000,
        read.backoff_max@ == 30_000_000_000,
        read.stable_after@ == 30_000_000_000,
{
    assert(read.scopes.deep_view().len() == read.scopes@.len());
}

/// What is asked for at enrollment is what the operator set, and else what the node needs.
pub proof fn what_is_asked_for_is_what_was_set(env: Env, read: Seq<Seq<char>>)
    ensures
        env.bytes("ZYRIS_SCOPES"@) is Some ==> requested(env, read) == read,
        env.bytes("ZYRIS_SCOPES"@) is None ==> requested(env, read) == node_scopes(),
        node_scopes().contains("agents:read"@),
        node_scopes().contains("sessions:write"@),
        node_scopes().contains("sessions:read"@),
        node_scopes().contains("projects:read"@),
        node_scopes().contains("jobs:write"@),
        node_scopes().len() == 5,
{
    assert(node_scopes()[0] == "agents:read"@);
    assert(node_scopes()[1] == "sessions:write"@);
    assert(node_scopes()[2] == "sessions:read"@);
    assert(node_scopes()[3] == "projects:read"@);
    assert(node_scopes()[4] == "jobs:write"@);
}

/// A wait is spread by what is rolled: the lowest roll takes a fifth off it, the middle one leaves
/// it as it is, and a higher one never makes it shorter.
pub proof fn a_wait_is_spread_by_the_roll(base: nat, low: u64, high: u64)
    ensures
        low % 400 == 0 ==> 1000 * jittered(base, low) <= 800 * base + 500 < 1000 * jittered(base, low)
            + 1000,
        low % 400 == 200 ==> jittered(base, low) == base,
        low % 400 <= high % 400 ==> jittered(base, low) <= jittered(base, high),
        base >= 1000 && low % 400 < high % 400 ==> jittered(base, low) < jittered(base, high),
        jittered(base, low) == jittered(base, (low % 400) as u64),
{
    let a = (800 + low as nat % 400) as nat;
    let b = (800 + high as nat % 400) as nat;
    assert(a <= b ==> base * a <= base * b) by (nonlinear_arith);
    assert(base >= 1000 && a < b ==> base * a + 1000 <= base * b) by (nonlinear_arith);
    assert(a == 1000 ==> (base * a + 500) / 1000 == base) by {
        if a == 1000 {
            assert(base * a == base * 1000);
            assert((base * 1000 + 500) / 1000 == base);
        }
    }
    if a == 800 {
        assert(base * a == base * 800);
    }
}

/// The process ends with 2 where a person has to do something and with 1 where none can, never with
/// the status of success.
pub proof fn a_failure_ends_with_one_or_two(why: Seq<char>, end: EndView)
    ensures
        status_of(EndView::Credentials(TroubleView::NeedsOperator(why))) == 2,
        status_of(EndView::Build(why)) == 2,
        status_of(EndView::Credentials(TroubleView::Fatal(why))) == 1,
        status_of(EndView::Credentials(TroubleView::Unavailable(why))) == 1,
        status_of(EndView::Refused(why)) == 1,
        status_of(end) != 0,
{
}

/// The three known platforms keep their names, and every other one is `other`.
pub proof fn a_platform_is_one_of_three_or_other(os: Seq<char>)
    ensures
        platform_of("linux"@) == "linux"@,
        platform_of("macos"@) == "macos"@,
        platform_of("windows"@) == "windows"@,
        os != "linux"@ && os != "macos"@ && os != "windows"@ ==> platform_of(os) == "other"@,
{
}

/// A configuration without an environment has the default of everything.
pub proof fn the_default_is_that_of_an_empty_environment(
    machine: Option<String>,
    config: RunConfig,
    env: Env,
    read: RunConfig,
)
    requires
        config.is_default(machine),
        env.vars@.len() == 0,
        read.is_read_from(env, machine),
    ensures
        config.url@ == read.url@,
        config.node_name@ == read.node_name@,
        config.profile@ == read.profile@,
        config.scopes.deep_view() == read.scopes.deep_view(),
        config.scopes_pinned == read.scopes_pinned,
        config.backoff_min@ == read.backoff_min@,
        config.backoff_max@ == read.backoff_max@,
        config.stable_after@ == read.stable_after@,
{
    assert(config.scopes.deep_view() =~= read.scopes.deep_view());
}

} // verus!
