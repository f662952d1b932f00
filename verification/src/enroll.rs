//! Where this node's credential comes from, and the enrollment code printed into the log.
//!
//! The order of the sources is the deployment story: what an operator explicitly gives always
//! wins, and the path that has to ask a person comes last. That path is a sequence of questions to
//! the store and to the server; they are asked by the caller, and what follows from each answer is
//! decided here.

use vstd::prelude::*;
use vstd::string::*;

use crate::env::Env;
use crate::numbers;
use crate::numbers::write_decimal;
use crate::runtime::credentials;
use crate::runtime::credentials::{CredentialsError, StaticToken, TokenFile, TroubleView};
use crate::runtime::runner;
use crate::runtime::runner::{machine_name, RunConfig};
use crate::runtime::store;
use crate::runtime::store::{
    CredentialStoreError, FileCredentialStore, MemoryCredentialStore, StoreTroubleView,
};
use crate::runtime::stored::{copy_texts, Credential, CredentialView, Stored};
use crate::text;
use crate::text::same;
use crate::time::{Duration, Moment};

verus! {

/// The program this node enrolls as.
pub const PROGRAM: &'static str = "zyris-docker";

// ---------------------------------------------------------------------------------------------
// The sources
// ---------------------------------------------------------------------------------------------

/// What to ask to be enrolled as.
pub struct EnrollRequest {
    pub program: String,
    /// What the machine calls itself. In a container a random id, unless somebody set one.
    pub system_hint: String,
    pub platform: String,
    pub scopes: Vec<String>,
}

/// A credential that the node enrolls for by itself: where it is kept, which deployment issues it,
/// and what is asked for.
pub struct Grant {
    pub store: FileCredentialStore,
    pub url: String,
    pub request: EnrollRequest,
}

/// The credentials this node will use.
pub enum Source {
    /// Given in the environment.
    Static(StaticToken),
    /// In a file that is read before every dial.
    File(TokenFile),
    /// Enrolled for, once a person approved it.
    Device(Grant),
}

/// The name of a variable that is no longer read, given which of them are set.
pub open spec fn outdated(token: bool, token_file: bool) -> Option<Seq<char>> {
    if token {
        Some("ZYRIS_NODE_TOKEN"@)
    } else if token_file {
        Some("ZYRIS_NODE_TOKEN_FILE"@)
    } else {
        None
    }
}

/// The variable an earlier image read, if one is still set.
pub fn leftover<F: Fn(&str) -> bool>(is_set: F) -> (out: Option<&'static str>)
    requires
        is_set.requires(("ZYRIS_NODE_TOKEN",)),
        is_set.requires(("ZYRIS_NODE_TOKEN_FILE",)),
    ensures
        exists|token: bool, token_file: bool|
            {
                &&& #[trigger] is_set.ensures(("ZYRIS_NODE_TOKEN",), token)
                &&& !token ==> is_set.ensures(("ZYRIS_NODE_TOKEN_FILE",), token_file)
                &&& out.deep_view() == #[trigger] outdated(token, token_file)
            },
{
    let token = is_set("ZYRIS_NODE_TOKEN");
    if token {
        assert(outdated(token, token) == Some("ZYRIS_NODE_TOKEN"@));
        return Some("ZYRIS_NODE_TOKEN");
    }
    let token_file = is_set("ZYRIS_NODE_TOKEN_FILE");
    assert(outdated(token, token_file) is Some == token_file);
    if token_file {
        Some("ZYRIS_NODE_TOKEN_FILE")
    } else {
        None
    }
}

/// Whether a variable is set to anything.
pub open spec fn is_given(env: Env, name: Seq<char>) -> bool {
    env.bytes(name) matches Some(value) && value.len() > 0
}

/// What is said of a variable that is no longer read.
pub open spec fn no_longer_read(name: Seq<char>) -> Seq<char> {
    name
        + " is no longer read: node tokens are gone. Remove it and either let this node enroll itself (approve the printed code at /settings/zyris → Enter a code in Attacca) or pass an existing credential as ZYRIS_CREDENTIAL_FILE or ZYRIS_CREDENTIAL"@
}

/// Whether this is the source that the environment gives: a credential in the environment, else
/// one in a file, else an enrollment, unless the environment still holds a variable that is no
/// longer read.
pub open spec fn is_source(
    config: RunConfig,
    env: Env,
    os: Seq<char>,
    machine: Option<String>,
    out: Result<Source, CredentialsError>,
) -> bool {
    match env.filled_text("ZYRIS_CREDENTIAL"@) {
        Some(raw) => match credentials::validated(raw, "ZYRIS_CREDENTIAL"@) {
            Ok(token) => {
                &&& out matches Ok(Source::Static(held))
                &&& held.token@ == token
                &&& held.source@ == "$ZYRIS_CREDENTIAL"@
            },
            Err(trouble) => out matches Err(error) && error@ == trouble,
        },
        None => if is_given(env, "ZYRIS_CREDENTIAL_FILE"@) {
            &&& out matches Ok(Source::File(file))
            &&& file.path@ == env.bytes("ZYRIS_CREDENTIAL_FILE"@)->0
        } else {
            match outdated(
                is_given(env, "ZYRIS_NODE_TOKEN"@),
                is_given(env, "ZYRIS_NODE_TOKEN_FILE"@),
            ) {
                Some(name) => {
                    &&& out matches Err(error)
                    &&& error@ == TroubleView::NeedsOperator(no_longer_read(name))
                },
                None => {
                    &&& out matches Ok(Source::Device(grant))
                    &&& grant.store.path@ == store::located(env, config.url@, config.profile@)
                    &&& grant.url@ == config.url@
                    &&& grant.request.program@ == PROGRAM@
                    &&& grant.request.system_hint@ == match machine {
                        Some(name) => name@,
                        None => Seq::empty(),
                    }
                    &&& grant.request.platform@ == if os == "linux"@ || os == "macos"@ || os
                        == "windows"@ {
                        os
                    } else {
                        "other"@
                    }
                    &&& grant.request.scopes.deep_view() == config.scopes.deep_view()
                },
            }
        },
    }
}

/// What an operator explicitly gives always wins: with a credential in the environment nothing else
/// is looked at, with one in a file there is no enrollment, and a variable that is no longer read
/// never ends in one.
pub proof fn what_an_operator_gives_wins(
    config: RunConfig,
    env: Env,
    os: Seq<char>,
    machine: Option<String>,
    out: Result<Source, CredentialsError>,
)
    requires
        is_source(config, env, os, machine, out),
    ensures
        env.filled_text("ZYRIS_CREDENTIAL"@) is Some ==> out is Err || out->Ok_0 is Static,
        env.filled_text("ZYRIS_CREDENTIAL"@) is None && is_given(
            env,
            "ZYRIS_CREDENTIAL_FILE"@,
        ) ==> out is Ok && out->Ok_0 is File,
        is_given(env, "ZYRIS_NODE_TOKEN"@) || is_given(env, "ZYRIS_NODE_TOKEN_FILE"@) ==> out is Err
            || !(out->Ok_0 is Device),
{
}

fn given(env: &Env, name: &str) -> (yes: bool)
    ensures
        yes == is_given(*env, name@),
{
    match env.var_os(name) {
        Some(value) => {
            assert(value.deep_view() == value@);
            value.len() > 0
        },
        None => false,
    }
}

/// The credentials this node will use, on a machine of the given name.
pub fn source_on(
    config: &RunConfig,
    env: &Env,
    os: &str,
    machine: Option<String>,
) -> (out: Result<Source, CredentialsError>)
    ensures
        is_source(*config, *env, os@, machine, out),
{
    match StaticToken::from_env(env) {
        Ok(Some(token)) => {
            return Ok(Source::Static(token));
        },
        Ok(None) => {},
        Err(error) => {
            return Err(error);
        },
    }
    if let Some(file) = TokenFile::from_env(env) {
        return Ok(Source::File(file));
    }
    let is_set = |name: &str| -> (yes: bool)
        ensures
            yes == is_given(*env, name@),
        { given(env, name) };
    if let Some(name) = leftover(is_set) {
        let mut message = name.to_owned();
        message.append(
            " is no longer read: node tokens are gone. Remove it and either let this node enroll itself (approve the printed code at /settings/zyris → Enter a code in Attacca) or pass an existing credential as ZYRIS_CREDENTIAL_FILE or ZYRIS_CREDENTIAL",
        );
        return Err(CredentialsError::NeedsOperator(message));
    }
    let system_hint = match machine {
        Some(name) => name,
        None => String::new(),
    };
    Ok(
        Source::Device(
            Grant {
                store: FileCredentialStore::for_server(
                    env,
                    config.url.as_str(),
                    config.profile.as_str(),
                ),
                url: config.url.clone(),
                request: EnrollRequest {
                    program: PROGRAM.to_owned(),
                    system_hint,
                    platform: config.platform(os).to_owned(),
                    scopes: copy_texts(&config.scopes),
                },
            },
        ),
    )
}

/// The credentials this node will use.
///
/// What an operator explicitly gives always wins, `$ZYRIS_CREDENTIAL`, then
/// `$ZYRIS_CREDENTIAL_FILE`, and the path that has to ask a person comes last. Scopes must be
/// settled before getting here: settle them later and the approval page asks for nothing.
pub fn source(config: &RunConfig, env: &Env, os: &str) -> (out: Result<Source, CredentialsError>)
    ensures
        exists|machine: Option<String>|
            runner::could_be_named(machine) && #[trigger] is_source(
                *config,
                *env,
                os@,
                machine,
                out,
            ),
{
    source_on(config, env, os, machine_name())
}

// ---------------------------------------------------------------------------------------------
// Failures
// ---------------------------------------------------------------------------------------------

/// A failure of the enrollment layer. All but the first carry what is shown of them.
pub enum EnrollError {
    /// A scope that this build asked for does not exist on that deployment.
    ScopeUnknown { scope: String },
    /// Somebody said no in the browser.
    Denied(String),
    /// The code ran out its clock.
    Lapsed(String),
    /// The server could not be reached.
    Unreachable(String),
}

/// How the run loop should read a failure that came from the enrollment layer.
pub open spec fn enrollment_reads(error: EnrollError) -> TroubleView {
    match error {
        EnrollError::ScopeUnknown { scope } => TroubleView::NeedsOperator(
            "this server does not know the scope "@ + scope@
                + "; it must be removed from the list this build asks for before enrollment can even show a code"@,
        ),
        EnrollError::Denied(shown) => TroubleView::NeedsOperator(shown@),
        EnrollError::Lapsed(shown) => TroubleView::Unavailable(shown@),
        EnrollError::Unreachable(shown) => TroubleView::Unavailable(shown@),
    }
}

/// How the run loop should read a failure that came from the enrollment layer. A lapsed code is
/// renewed by the next attempt, and a server that is merely unreachable is usually a startup race;
/// anything else needs a person.
pub fn enrollment_trouble(error: EnrollError) -> (out: CredentialsError)
    ensures
        out@ == enrollment_reads(error),
{
    match error {
        EnrollError::ScopeUnknown { scope } => {
            let mut message = "this server does not know the scope ".to_owned();
            message.append(scope.as_str());
            message.append(
                "; it must be removed from the list this build asks for before enrollment can even show a code",
            );
            CredentialsError::NeedsOperator(message)
        },
        EnrollError::Denied(shown) => CredentialsError::NeedsOperator(shown),
        EnrollError::Lapsed(shown) => CredentialsError::Unavailable(shown),
        EnrollError::Unreachable(shown) => CredentialsError::Unavailable(shown),
    }
}

/// A store failure that reached the caller needs a person: it is either an exposed secret or a
/// write that could not be kept.
pub fn store_trouble(error: &CredentialStoreError) -> (out: CredentialsError)
    ensures
        out@ == TroubleView::NeedsOperator(store::told(error@)),
{
    CredentialsError::NeedsOperator(error.message())
}

// ---------------------------------------------------------------------------------------------
// The device grant
// ---------------------------------------------------------------------------------------------

/// How many times a lapsed code is renewed before this node gives up.
///
/// Renewing forever would be a process idling against a code nobody will type. Giving up needs an
/// operator, so the process exits 2 and its supervisor surfaces it.
pub const MAX_RENEWALS: u32 = 3;

/// What came of loading the stored credential.
pub type Loaded = Result<Option<Credential>, CredentialStoreError>;

/// What came of loading the stored credential.
pub open spec fn loaded_view(loaded: Loaded) -> Result<Option<CredentialView>, StoreTroubleView> {
    match loaded {
        Ok(credential) => Ok(credential.deep_view()),
        Err(error) => Err(error@),
    }
}

/// What came of a write to the store, or of clearing it.
pub type Written = Result<(), CredentialStoreError>;

/// How an enrollment is getting on.
pub enum Progress {
    /// Nobody has decided yet.
    Waiting,
    /// Approved; this is the credential.
    Granted(Credential),
    /// The code ran out its clock.
    Lapsed,
    /// Somebody said no in the browser.
    Denied,
}

/// How the credential to present is come by.
pub enum Step {
    /// Present this bearer.
    Present(String),
    /// Load the stored credential, then tell [`DeviceGrant::on_loaded`].
    Load,
    /// Clear the store, then tell [`DeviceGrant::on_discarded`].
    Discard,
    /// Ask for a code and show it, then poll and tell [`Enrollment::on_progress`].
    Enroll,
    /// Poll again.
    Poll,
    /// Ask for another code and show it, then poll again.
    Renew,
    /// Write this credential to the store, then tell [`DeviceGrant::on_saved`].
    Save(Credential),
    /// There is none.
    Fail(CredentialsError),
}

/// What a [`Step`] says.
pub enum StepView {
    Present(Seq<char>),
    Load,
    Discard,
    Enroll,
    Poll,
    Renew,
    Save(CredentialView),
    Fail(TroubleView),
}

impl View for Step {
    type V = StepView;

    open spec fn view(&self) -> StepView {
        match self {
            Step::Present(bearer) => StepView::Present(bearer@),
            Step::Load => StepView::Load,
            Step::Discard => StepView::Discard,
            Step::Enroll => StepView::Enroll,
            Step::Poll => StepView::Poll,
            Step::Renew => StepView::Renew,
            Step::Save(credential) => StepView::Save(credential.deep_view()),
            Step::Fail(error) => StepView::Fail(error@),
        }
    }
}

/// What follows a refusal of the credential by the server.
pub enum AfterRefusal {
    /// Another credential is at hand: dial again.
    Adopted,
    /// Clear the store, then tell [`DeviceGrant::on_forgotten`].
    Clear,
    /// The store cannot be used.
    Fail(CredentialsError),
}

/// What is said when nobody approved any of the codes.
pub open spec fn nobody_approved() -> Seq<char> {
    "no one approved this node after "@ + numbers::decimal(MAX_RENEWALS as nat)
        + " codes; start it again when somebody is ready to authorize it"@
}

/// The credential this node presents: the one held, the one stored, or a fresh enrollment. It
/// never expires and never rotates, so once one is held it is simply presented before every dial.
pub struct DeviceGrant {
    held: Option<Credential>,
}

/// The credential that is held from now on, where that changes, and what follows, given what the
/// store holds.
pub open spec fn after_loading(loaded: Result<Option<CredentialView>, StoreTroubleView>) -> (
    Option<CredentialView>,
    StepView,
) {
    match loaded {
        Ok(Some(credential)) => (Some(credential), StepView::Present(credential.secret)),
        Ok(None) => (None, StepView::Enroll),
        Err(StoreTroubleView::Unusable(_)) => (None, StepView::Discard),
        Err(StoreTroubleView::Refused(message)) => (
            None,
            StepView::Fail(TroubleView::NeedsOperator(message)),
        ),
    }
}

/// Whether what the store holds is a different credential from the one that was refused.
pub open spec fn replaced(
    refused: Option<CredentialView>,
    loaded: Result<Option<CredentialView>, StoreTroubleView>,
) -> bool {
    match loaded {
        Ok(Some(stored)) => refused matches Some(held) ==> held.secret != stored.secret,
        _ => false,
    }
}

/// What a node has of its credential: the one that it holds, and what loading the stored one comes
/// to.
#[verifier::ext_equal]
pub struct KeptView {
    pub held: Option<CredentialView>,
    pub stored: Result<Option<CredentialView>, StoreTroubleView>,
}

/// The first step towards the credential to present.
pub open spec fn first_step(held: Option<CredentialView>) -> StepView {
    match held {
        Some(credential) => StepView::Present(credential.secret),
        None => StepView::Load,
    }
}

/// What the next bearer comes to, once the stored credential has been asked for where that is
/// needed.
pub open spec fn next_bearer(kept: KeptView) -> StepView {
    match first_step(kept.held) {
        StepView::Load => after_loading(kept.stored).1,
        step => step,
    }
}

/// The credential that is held after a refusal, and whether the store is to be cleared, given the
/// credential that was refused and what loading the stored one came to.
pub open spec fn after_refusal(
    refused: Option<CredentialView>,
    loaded: Result<Option<CredentialView>, StoreTroubleView>,
) -> (Option<CredentialView>, Result<bool, TroubleView>) {
    match loaded {
        Err(StoreTroubleView::Refused(message)) => (
            None,
            Err(TroubleView::NeedsOperator(message)),
        ),
        _ => if replaced(refused, loaded) {
            (loaded->Ok_0, Ok(false))
        } else {
            (None, Ok(true))
        },
    }
}

/// What a node has of its credential once a refusal has been dealt with, and whether another dial
/// is worth attempting, where a store that is to be cleared can be.
pub open spec fn forgotten(kept: KeptView) -> (KeptView, Result<bool, TroubleView>) {
    let (held, clears) = after_refusal(kept.held, kept.stored);
    match clears {
        Err(trouble) => (KeptView { held, stored: kept.stored }, Err(trouble)),
        Ok(clears) => (
            KeptView {
                held,
                stored: if clears {
                    Ok(None)
                } else {
                    kept.stored
                },
            },
            Ok(true),
        ),
    }
}

/// What came of a write to the store, or of clearing it.
pub open spec fn written_view(written: Written) -> Result<(), StoreTroubleView> {
    match written {
        Ok(_) => Ok(()),
        Err(error) => Err(error@),
    }
}

/// What follows once an unusable credential was cleared, or could not be.
pub open spec fn after_discarding(cleared: Result<(), StoreTroubleView>) -> StepView {
    match cleared {
        Ok(_) => StepView::Enroll,
        Err(trouble) => StepView::Fail(TroubleView::NeedsOperator(store::told(trouble))),
    }
}

/// The credential that is held, and what follows, once a granted one was written, or could not be.
pub open spec fn after_saving(
    held: Option<CredentialView>,
    granted: CredentialView,
    saved: Result<(), StoreTroubleView>,
) -> (Option<CredentialView>, StepView) {
    match saved {
        Ok(_) => (Some(granted), StepView::Present(granted.secret)),
        Err(trouble) => (
            held,
            StepView::Fail(TroubleView::NeedsOperator(store::told(trouble))),
        ),
    }
}

impl DeviceGrant {
    /// The credential that is held.
    pub closed spec fn holds(&self) -> Option<CredentialView> {
        self.held.deep_view()
    }

    /// A grant that holds nothing yet.
    pub fn new() -> (out: DeviceGrant)
        ensures
            out.holds() is None,
    {
        DeviceGrant { held: None }
    }

    /// Whether a credential is held.
    pub fn is_holding(&self) -> (yes: bool)
        ensures
            yes == self.holds() is Some,
    {
        self.held.is_some()
    }

    /// Hold a credential.
    pub fn hold(&mut self, credential: Credential)
        ensures
            final(self).holds() == Some(credential.deep_view()),
    {
        self.held = Some(credential);
    }

    /// The credential to present: the one held, else the stored one has to be loaded.
    pub fn bearer(&self) -> (step: Step)
        ensures
            step@ == first_step(self.holds()),
    {
        match &self.held {
            Some(credential) => Step::Present(credential.secret.clone()),
            None => Step::Load,
        }
    }

    /// The stored credential was loaded. One that is corrupt or unreadable is a reason to enroll
    /// again, not to die. One that is *refused* is different, a world-readable key file, and is not
    /// answered with a quiet enrollment.
    pub fn on_loaded(&mut self, loaded: Loaded) -> (step: Step)
        ensures
            step@ == after_loading(loaded_view(loaded)).1,
            final(self).holds() == match after_loading(loaded_view(loaded)).0 {
                Some(credential) => Some(credential),
                None => old(self).holds(),
            },
    {
        match loaded {
            Ok(Some(credential)) => {
                let bearer = credential.secret.clone();
                self.held = Some(credential);
                Step::Present(bearer)
            },
            Ok(None) => Step::Enroll,
            Err(error) => if error.is_discardable() {
                Step::Discard
            } else {
                Step::Fail(store_trouble(&error))
            },
        }
    }

    /// The unusable credential was cleared from the store.
    pub fn on_discarded(&self, cleared: Written) -> (step: Step)
        ensures
            step@ == after_discarding(written_view(cleared)),
            step@ == match cleared {
                Ok(_) => StepView::Enroll,
                Err(error) => StepView::Fail(TroubleView::NeedsOperator(store::told(error@))),
            },
    {
        match cleared {
            Ok(_) => Step::Enroll,
            Err(error) => Step::Fail(store_trouble(&error)),
        }
    }

    /// The granted credential was written to the store. Only now is it held and presented: one that
    /// this process began dialling on but never wrote down would enroll again on the next start.
    pub fn on_saved(&mut self, credential: Credential, saved: Written) -> (step: Step)
        ensures
            (final(self).holds(), step@) == after_saving(
                old(self).holds(),
                credential.deep_view(),
                written_view(saved),
            ),
            match saved {
                Ok(_) => {
                    &&& final(self).holds() == Some(credential.deep_view())
                    &&& step@ == StepView::Present(credential.secret@)
                },
                Err(error) => {
                    &&& final(self).holds() == old(self).holds()
                    &&& step@ == StepView::Fail(TroubleView::NeedsOperator(store::told(error@)))
                },
            },
    {
        match saved {
            Ok(_) => {
                let bearer = credential.secret.clone();
                self.held = Some(credential);
                Step::Present(bearer)
            },
            Err(error) => Step::Fail(store_trouble(&error)),
        }
    }

    /// The server refused the credential. What was held is held no longer; the stored one has to be
    /// loaded, then [`DeviceGrant::on_loaded_after_refusal`] told.
    pub fn on_refused(&mut self) -> (refused: Option<Credential>)
        ensures
            final(self).holds() is None,
            refused.deep_view() == old(self).holds(),
    {
        let refused = match &self.held {
            Some(credential) => Some(credential.copy()),
            None => None,
        };
        self.held = None;
        refused
    }

    /// The stored credential was loaded after a refusal. Where a sibling already replaced it, the
    /// new one is adopted: clearing it would throw that sibling's approval away. Anything else that
    /// may be thrown away is, so the next bearer enrolls.
    pub fn on_loaded_after_refusal(
        &mut self,
        refused: &Option<Credential>,
        loaded: Loaded,
    ) -> (next: AfterRefusal)
        ensures
            final(self).holds() == match after_refusal(
                refused.deep_view(),
                loaded_view(loaded),
            ).0 {
                Some(credential) => Some(credential),
                None => old(self).holds(),
            },
            match after_refusal(refused.deep_view(), loaded_view(loaded)).1 {
                Err(trouble) => next matches AfterRefusal::Fail(error) && error@ == trouble,
                Ok(true) => next is Clear,
                Ok(false) => next is Adopted,
            },
    {
        match loaded {
            Ok(Some(stored)) => {
                let replaced = match refused {
                    Some(held) => !same(held.secret.as_str(), stored.secret.as_str()),
                    None => true,
                };
                if replaced {
                    self.held = Some(stored);
                    AfterRefusal::Adopted
                } else {
                    AfterRefusal::Clear
                }
            },
            Ok(None) => AfterRefusal::Clear,
            Err(error) => if error.is_discardable() {
                AfterRefusal::Clear
            } else {
                AfterRefusal::Fail(store_trouble(&error))
            },
        }
    }

    /// The refused credential was cleared from the store: another dial is worth attempting, because
    /// the next bearer enrolls.
    pub fn on_forgotten(&self, cleared: Written) -> (again: Result<bool, CredentialsError>)
        ensures
            match cleared {
                Ok(_) => again matches Ok(yes) && yes,
                Err(error) => {
                    &&& again matches Err(trouble)
                    &&& trouble@ == TroubleView::NeedsOperator(store::told(error@))
                },
            },
    {
        match cleared {
            Ok(_) => Ok(true),
            Err(error) => Err(store_trouble(&error)),
        }
    }

    /// The credential to present, over a store in memory.
    pub fn bearer_from(&mut self, store: &MemoryCredentialStore<Credential>) -> (step: Step)
        ensures
            step@ == next_bearer(KeptView { held: old(self).holds(), stored: Ok(store.holds()) }),
            final(self).holds() == match old(self).holds() {
                Some(credential) => Some(credential),
                None => store.holds(),
            },
    {
        match self.bearer() {
            Step::Load => self.on_loaded(Ok(store.load())),
            step => step,
        }
    }

    /// The server refused the credential. Forget it, in memory and in the store, so that the next
    /// bearer enrolls, unless a sibling already replaced it: that one is adopted, not cleared.
    ///
    /// This is the whole of it over a store in memory, which always can be read and cleared.
    pub fn forget_refused(&mut self, store: &mut MemoryCredentialStore<Credential>) -> (again:
        Result<bool, CredentialsError>)
        ensures
            ({
                let (kept, dials) = forgotten(
                    KeptView { held: old(self).holds(), stored: Ok(old(store).holds()) },
                );
                &&& final(self).holds() == kept.held
                &&& kept.stored matches Ok(stored) && stored == final(store).holds()
                &&& dials == match again {
                    Ok(again) => Ok(again),
                    Err(error) => Err(error@),
                }
            }),
    {
        let refused = self.on_refused();
        match self.on_loaded_after_refusal(&refused, Ok(store.load())) {
            AfterRefusal::Adopted => Ok(true),
            AfterRefusal::Clear => {
                store.clear();
                self.on_forgotten(Ok(()))
            },
            AfterRefusal::Fail(error) => Err(error),
        }
    }

    /// Where this credential comes from, given where the store keeps it.
    pub fn describe(store: &str) -> (out: String)
        ensures
            out@ == "device enrollment ("@ + store@ + ")"@,
    {
        let mut out = "device enrollment (".to_owned();
        out.append(store);
        out.append(")");
        out
    }
}

/// The part of an enrollment that waits for a person.
pub struct Enrollment {
    renewals: u32,
}

/// What follows a poll, given how often a lapsed code was renewed before.
pub open spec fn after_poll(renewals: nat, progress: Progress) -> (nat, StepView) {
    match progress {
        Progress::Waiting => (renewals, StepView::Poll),
        Progress::Granted(credential) => (renewals, StepView::Save(credential.deep_view())),
        Progress::Lapsed => if renewals >= MAX_RENEWALS {
            (renewals, StepView::Fail(TroubleView::NeedsOperator(nobody_approved())))
        } else {
            (renewals + 1, StepView::Renew)
        },
        Progress::Denied => (
            renewals,
            StepView::Fail(
                TroubleView::NeedsOperator("the request was declined in the browser"@),
            ),
        ),
    }
}

impl Enrollment {
    #[verifier::type_invariant]
    spec fn bounded(self) -> bool {
        self.renewals <= MAX_RENEWALS
    }

    /// How often a lapsed code was renewed.
    pub closed spec fn renewed(&self) -> nat {
        self.renewals as nat
    }

    /// An enrollment at its start.
    pub fn new() -> (out: Enrollment)
        ensures
            out.renewed() == 0,
    {
        Enrollment { renewals: 0 }
    }

    /// The server was polled.
    pub fn on_progress(&mut self, progress: Progress) -> (step: Step)
        ensures
            (final(self).renewed(), step@) == after_poll(old(self).renewed(), progress),
    {
        proof {
            use_type_invariant(&*self);
        }
        match progress {
            Progress::Waiting => Step::Poll,
            Progress::Granted(credential) => Step::Save(credential),
            Progress::Lapsed => if self.renewals >= MAX_RENEWALS {
                let mut message = "no one approved this node after ".to_owned();
                let digits = write_decimal(MAX_RENEWALS as u64);
                message.append(digits.as_str());
                message.append(" codes; start it again when somebody is ready to authorize it");
                Step::Fail(CredentialsError::NeedsOperator(message))
            } else {
                *self = Enrollment { renewals: self.renewals + 1 };
                Step::Renew
            },
            Progress::Denied => Step::Fail(
                CredentialsError::NeedsOperator(
                    "the request was declined in the browser".to_owned(),
                ),
            ),
        }
    }
}

/// How often codes were renewed after a row of polls.
pub open spec fn renewals_after(polls: Seq<Progress>) -> nat
    decreases polls.len(),
{
    if polls.len() == 0 {
        0
    } else {
        after_poll(renewals_after(polls.drop_last()), polls.last()).0
    }
}

/// However long an enrollment takes, a code is renewed three times at most, and the code that
/// lapses after that ends it with a call for a person.
pub proof fn renewals_are_bounded(polls: Seq<Progress>)
    ensures
        renewals_after(polls) <= MAX_RENEWALS,
        renewals_after(polls) == MAX_RENEWALS ==> after_poll(
            renewals_after(polls),
            Progress::Lapsed,
        ).1 == StepView::Fail(TroubleView::NeedsOperator(nobody_approved())),
    decreases polls.len(),
{
    if polls.len() > 0 {
        renewals_are_bounded(polls.drop_last());
    }
}

/// A granted credential is written to the store before it is presented: the poll that grants it
/// asks for the write, and no poll presents anything.
pub proof fn a_grant_is_stored_before_it_is_used(
    renewals: nat,
    credential: Credential,
    progress: Progress,
)
    ensures
        after_poll(renewals, Progress::Granted(credential)).1 == StepView::Save(
            credential.deep_view(),
        ),
        !(after_poll(renewals, progress).1 is Present),
{
}

/// A secret that was refused is not presented again: what is adopted in its place has another
/// secret, and where nothing is, the store is cleared, and with nothing stored the next bearer
/// enrolls.
pub proof fn a_refused_secret_is_not_presented_again(
    refused: CredentialView,
    loaded: Result<Option<CredentialView>, StoreTroubleView>,
)
    ensures
        replaced(Some(refused), loaded) ==> loaded->Ok_0->0.secret != refused.secret,
        after_loading(Ok(None)) == (None::<CredentialView>, StepView::Enroll),
{
}

/// A refusal as a whole. Where the store holds a credential with another secret than the one that
/// was refused, a sibling's, that one stays stored, is held and is what the next dial presents.
/// Where it holds the refused one, none, or one that cannot be used, nothing is held or stored any
/// more and the next bearer enrolls. Either way another dial is worth attempting. Only a store that
/// must not be read ends in a call for a person, with what is stored left alone.
pub proof fn a_refusal_adopts_a_siblings_credential_or_enrolls_again(kept: KeptView)
    ensures
        replaced(kept.held, kept.stored) ==> {
            let stored = kept.stored->Ok_0->0;
            &&& forgotten(kept).0 == KeptView { held: Some(stored), stored: kept.stored }
            &&& forgotten(kept).1 == Ok::<bool, TroubleView>(true)
            &&& next_bearer(forgotten(kept).0) == StepView::Present(stored.secret)
            &&& kept.held matches Some(refused) ==> stored.secret != refused.secret
        },
        !replaced(kept.held, kept.stored) && !(kept.stored matches Err(
            StoreTroubleView::Refused(_),
        )) ==> {
            &&& forgotten(kept).0 == KeptView { held: None, stored: Ok(None) }
            &&& forgotten(kept).1 == Ok::<bool, TroubleView>(true)
            &&& next_bearer(forgotten(kept).0) == StepView::Enroll
        },
        kept.stored matches Err(StoreTroubleView::Refused(message)) ==> {
            &&& forgotten(kept).0 == KeptView { held: None, stored: kept.stored }
            &&& forgotten(kept).1 == Err::<bool, TroubleView>(TroubleView::NeedsOperator(message))
        },
{
}

// ---------------------------------------------------------------------------------------------
// The printed block
// ---------------------------------------------------------------------------------------------

/// A code for a person to type into the browser.
pub struct Code {
    pub user_code: String,
    pub verification_uri: String,
    pub expires_at: Moment,
}

/// How much of a code's life is left, in nanoseconds.
pub open spec fn left_of(expires_at: int, now: int) -> nat {
    if expires_at >= now {
        (expires_at - now) as nat
    } else {
        0
    }
}

/// How much of a code's life is left, on the wall clock it was issued against. A code that already
/// lapsed has no time left.
pub fn time_left(code: &Code, now: &Moment) -> (out: Duration)
    ensures
        out@ == left_of(code.expires_at@, now@),
{
    code.expires_at.since(now)
}

/// Whole seconds in minutes, rounded up.
pub open spec fn minutes(nanos: nat) -> nat {
    (nanos / 1_000_000_000 + 59) / 60
}

/// The block printed for a person to act on.
pub open spec fn block(uri: Seq<char>, user_code: Seq<char>, minutes: nat) -> Seq<char> {
    "\n--------------------------------------------------------------\n  Authorize this node\n\n  1. Open        "@
        + uri + "\n  2. Enter code  "@ + user_code
        + "\n\n  Waiting for approval. This code expires in "@ + numbers::decimal(minutes)
        + " minutes.\n--------------------------------------------------------------\n"@
}

/// Whether a text holds another one.
pub open spec fn names(s: Seq<char>, part: Seq<char>) -> bool {
    exists|i: int|
        0 <= i && i + part.len() <= s.len() && #[trigger] s.subrange(i, i + part.len()) == part
}

/// The block carries both halves: the code, and where to type it. A code with nowhere to type it
/// is not actionable.
pub proof fn the_block_names_the_code_and_where_to_type_it(
    uri: Seq<char>,
    user_code: Seq<char>,
    minutes: nat,
)
    ensures
        names(block(uri, user_code, minutes), uri),
        names(block(uri, user_code, minutes), user_code),
{
    let whole = block(uri, user_code, minutes);
    let open =
        "\n--------------------------------------------------------------\n  Authorize this node\n\n  1. Open        "@;
    let enter = "\n  2. Enter code  "@;
    let a = open.len() as int;
    assert(whole.subrange(a, a + uri.len()) == uri);
    let b = a + uri.len() + enter.len();
    assert(whole.subrange(b, b + user_code.len()) == user_code);
}

/// A code that already lapsed has no time left and no minutes; one that has not is never shown with
/// less time than it has in whole seconds.
pub proof fn time_left_is_never_understated(expires_at: int, now: int)
    ensures
        expires_at <= now ==> minutes(left_of(expires_at, now)) == 0,
        60 * minutes(left_of(expires_at, now)) >= left_of(expires_at, now) / 1_000_000_000,
{
}

/// The block printed for a person to act on.
pub fn notice(code: &Code, now: &Moment) -> (out: String)
    ensures
        out@ == block(
            code.verification_uri@,
            code.user_code@,
            minutes(left_of(code.expires_at@, now@)),
        ),
{
    let secs: u64 = time_left(code, now).as_secs();
    let whole: u64 = secs / 60;
    let minutes: u64 = if secs % 60 == 0 {
        whole
    } else {
        whole + 1
    };
    let mut out =
        "\n--------------------------------------------------------------\n  Authorize this node\n\n  1. Open        ".to_owned();
    out.append(code.verification_uri.as_str());
    out.append("\n  2. Enter code  ");
    out.append(code.user_code.as_str());
    out.append("\n\n  Waiting for approval. This code expires in ");
    let digits = write_decimal(minutes);
    out.append(digits.as_str());
    out.append(" minutes.\n--------------------------------------------------------------\n");
    out
}

// ---------------------------------------------------------------------------------------------
// What enrolling keeps to
// ---------------------------------------------------------------------------------------------

/// Where the credential comes from: what is given in the environment comes first and is used where
/// it is a credential; then a file; and only where neither is given, and nothing that is no longer
/// read, does the node enroll by itself, against the deployment and into the file that are
/// configured.
pub proof fn the_credential_comes_from_the_first_that_is_given(
    config: RunConfig,
    env: Env,
    os: Seq<char>,
    machine: Option<String>,
    out: Result<Source, CredentialsError>,
)
    requires
        is_source(config, env, os, machine, out),
    ensures
        ({
            let given = env.filled_text("ZYRIS_CREDENTIAL"@);
            let file = env.bytes("ZYRIS_CREDENTIAL_FILE"@) is Some && env.bytes(
                "ZYRIS_CREDENTIAL_FILE"@,
            )->0.len() > 0;
            let old_token = env.bytes("ZYRIS_NODE_TOKEN"@) is Some && env.bytes(
                "ZYRIS_NODE_TOKEN"@,
            )->0.len() > 0;
            let old_file = env.bytes("ZYRIS_NODE_TOKEN_FILE"@) is Some && env.bytes(
                "ZYRIS_NODE_TOKEN_FILE"@,
            )->0.len() > 0;
            &&& given is Some && text::begins_with(text::trimmed(given->0), "zc_"@) ==> (out matches Ok(
                Source::Static(held),
            ) && held.token@ == text::trimmed(given->0))
            &&& given is Some && !text::begins_with(text::trimmed(given->0), "zc_"@) ==> out is Err
            &&& given is None && file ==> (out matches Ok(Source::File(held)) && held.path@
                == env.bytes("ZYRIS_CREDENTIAL_FILE"@)->0)
            &&& given is None && !file && (old_token || old_file) ==> out is Err
                && out->Err_0@ is NeedsOperator
            &&& given is None && !file && !old_token && !old_file ==> {
                &&& out matches Ok(Source::Device(grant))
                &&& grant.url@ == config.url@
                &&& grant.store.path@ == store::located(env, config.url@, config.profile@)
                &&& grant.request.scopes.deep_view() == config.scopes.deep_view()
                &&& grant.request.program@ == "zyris-docker"@
                &&& machine matches Some(name) ==> grant.request.system_hint@ == name@
            }
        }),
{
    reveal_strlit("zc_");
    if let Some(raw) = env.filled_text("ZYRIS_CREDENTIAL"@) {
        let trimmed = text::trimmed(raw);
        credentials::only_a_credential_of_the_right_kind_passes(
            raw,
            "ZYRIS_CREDENTIAL"@,
            trimmed,
        );
        text::a_prefix_has_a_rest(trimmed, "zc_"@);
    }
}

/// What went wrong with enrolling is beyond a person only where it may pass: a code that lapsed or a
/// server that cannot be reached. A scope that does not exist, and a refusal in the browser, need
/// one.
pub proof fn only_what_may_pass_is_tried_again(scope: String, shown: String)
    ensures
        enrollment_reads(EnrollError::Lapsed(shown)) == TroubleView::Unavailable(shown@),
        enrollment_reads(EnrollError::Unreachable(shown)) == TroubleView::Unavailable(shown@),
        enrollment_reads(EnrollError::Denied(shown)) == TroubleView::NeedsOperator(shown@),
        enrollment_reads(EnrollError::ScopeUnknown { scope }) is NeedsOperator,
        names(enrollment_reads(EnrollError::ScopeUnknown { scope })->NeedsOperator_0, scope@),
{
    let said = enrollment_reads(EnrollError::ScopeUnknown { scope })->NeedsOperator_0;
    let at = "this server does not know the scope "@.len() as int;
    assert(said.subrange(at, at + scope@.len()) == scope@);
}

/// What loading the stored credential leads to: one that is there is held and presented; without
/// one, and with one that may be thrown away, the node enrolls, in the second case once it was
/// cleared; one that must not be used stops it.
pub proof fn what_is_stored_is_presented(
    credential: CredentialView,
    why: Seq<char>,
)
    ensures
        after_loading(Ok(Some(credential))) == (
            Some(credential),
            StepView::Present(credential.secret),
        ),
        after_loading(Ok(None)) == (None::<CredentialView>, StepView::Enroll),
        after_loading(Err(StoreTroubleView::Unusable(why))) == (
            None::<CredentialView>,
            StepView::Discard,
        ),
        after_loading(Err(StoreTroubleView::Refused(why))) == (
            None::<CredentialView>,
            StepView::Fail(TroubleView::NeedsOperator(why)),
        ),
        first_step(Some(credential)) == StepView::Present(credential.secret),
        first_step(None) is Load,
{
}

/// A stored credential has replaced a refused one exactly where its secret is another, or where none
/// was held when it was refused.
pub proof fn a_credential_is_replaced_by_another_secret(
    refused: CredentialView,
    stored: CredentialView,
    why: StoreTroubleView,
)
    ensures
        replaced(Some(refused), Ok(Some(stored))) <==> refused.secret != stored.secret,
        replaced(None, Ok(Some(stored))),
        !replaced(Some(refused), Ok(None)),
        !replaced(None, Ok(None)),
        !replaced(Some(refused), Err(why)),
        !replaced(None, Err(why)),
{
}

/// What a poll leads to: while nobody has decided it is polled again; what was granted is written
/// down; a code that lapsed is renewed three times and no more; a refusal ends it.
pub proof fn what_a_poll_leads_to(renewals: nat, credential: Credential)
    ensures
        after_poll(renewals, Progress::Waiting) == (renewals, StepView::Poll),
        after_poll(renewals, Progress::Granted(credential)) == (
            renewals,
            StepView::Save(credential.deep_view()),
        ),
        renewals < 3 ==> after_poll(renewals, Progress::Lapsed) == (renewals + 1, StepView::Renew),
        renewals >= 3 ==> after_poll(renewals, Progress::Lapsed).1 is Fail && after_poll(
            renewals,
            Progress::Lapsed,
        ).1->Fail_0 is NeedsOperator,
        after_poll(renewals, Progress::Denied).1 == StepView::Fail(
            TroubleView::NeedsOperator("the request was declined in the browser"@),
        ),
{
}

/// After as many codes lapsed as may be renewed, each was, whatever was heard in between.
pub proof fn each_lapsed_code_counts(polls: Seq<Progress>)
    ensures
        renewals_after(polls) == ({
            let lapsed = polls.filter(|poll: Progress| poll is Lapsed).len();
            if lapsed <= 3 {
                lapsed
            } else {
                3
            }
        }),
    decreases polls.len(),
{
    reveal(Seq::filter);
    if polls.len() > 0 {
        each_lapsed_code_counts(polls.drop_last());
    }
}

/// The minutes that a code is good for are counted up to the next whole one, and time that has run
/// out is none.
pub proof fn minutes_are_rounded_up(nanos: nat, expires_at: int, now: int)
    ensures
        60 * minutes(nanos) >= nanos / 1_000_000_000,
        minutes(nanos) > 0 ==> 60 * (minutes(nanos) - 1) < nanos / 1_000_000_000,
        now + left_of(expires_at, now) == expires_at || left_of(expires_at, now) == 0,
        expires_at > now ==> left_of(expires_at, now) == expires_at - now,
        expires_at <= now ==> left_of(expires_at, now) == 0,
{
}

/// A variable that is no longer read is named, the token before the file.
pub proof fn the_token_is_named_before_its_file(token_file: bool)
    ensures
        outdated(true, token_file) == Some("ZYRIS_NODE_TOKEN"@),
        outdated(false, true) == Some("ZYRIS_NODE_TOKEN_FILE"@),
        outdated(false, false) is None,
{
}

/// A granted credential is held and presented only once it was written down; one that could not be
/// written is neither, and what was held stays so. A store that cannot be written or cleared calls
/// for a person.
pub proof fn nothing_is_used_that_was_not_written_down(
    held: Option<CredentialView>,
    granted: CredentialView,
    trouble: StoreTroubleView,
)
    ensures
        after_saving(held, granted, Ok(())) == (
            Some(granted),
            StepView::Present(granted.secret),
        ),
        after_saving(held, granted, Err(trouble)).0 == held,
        after_saving(held, granted, Err(trouble)).1 == StepView::Fail(
            TroubleView::NeedsOperator(store::told(trouble)),
        ),
        after_discarding(Ok(())) is Enroll,
        after_discarding(Err(trouble)) == StepView::Fail(
            TroubleView::NeedsOperator(store::told(trouble)),
        ),
{
}

/// The block says for how many minutes the code is good, and what is said of a variable that is no
/// longer read begins with its name.
pub proof fn the_block_says_how_long_the_code_lasts(
    uri: Seq<char>,
    user_code: Seq<char>,
    minutes: nat,
    name: Seq<char>,
)
    ensures
        names(block(uri, user_code, minutes), numbers::decimal(minutes)),
        text::begins_with(no_longer_read(name), name),
{
    let whole = block(uri, user_code, minutes);
    let before =
        "\n--------------------------------------------------------------\n  Authorize this node\n\n  1. Open        "@
        + uri + "\n  2. Enter code  "@ + user_code
        + "\n\n  Waiting for approval. This code expires in "@;
    let at = before.len() as int;
    let digits = numbers::decimal(minutes);
    assert(whole.subrange(at, at + digits.len()) == digits);
    assert(no_longer_read(name).take(name.len() as int) == name);
}

} // verus!
