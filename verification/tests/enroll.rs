use zyris_docker::enroll::{
    enrollment_trouble, leftover, notice, source, source_on, store_trouble, time_left,
    AfterRefusal, Code, DeviceGrant, EnrollError, Enrollment, Progress, Source, Step, MAX_RENEWALS,
};
use zyris_docker::env::{Env, EnvValue, EnvVar};
use zyris_docker::runtime::credentials::CredentialsError;
use zyris_docker::runtime::runner::RunConfig;
use zyris_docker::runtime::store::{CredentialStoreError, MemoryCredentialStore};
use zyris_docker::runtime::stored::{Credential, Named};
use zyris_docker::time::{Duration, Moment};

fn env(vars: &[(&str, &str)]) -> Env {
    Env {
        vars: vars
            .iter()
            .map(|(name, value)| EnvVar {
                name: name.to_string(),
                value: EnvValue::Text(value.to_string()),
            })
            .collect(),
    }
}

fn a_credential(secret: &str) -> Credential {
    Credential {
        version: 2,
        secret: secret.to_string(),
        system: Named { id: "s".into(), name: "srv-a".into(), slug: "srv-a".into() },
        program: Named {
            id: "c".into(),
            name: "zyris-docker".into(),
            slug: "zyris-docker".into(),
        },
        scopes: Vec::new(),
        owner_email: "e@example.com".into(),
    }
}

fn code(expires_at: Moment) -> Code {
    Code {
        user_code: "WXQR-7KBD".into(),
        verification_uri: "https://attacca.example/settings/zyris/device".into(),
        expires_at,
    }
}

/// The bearer that the grant comes to over the store, as far as nobody has to approve.
fn bearer(grant: &mut DeviceGrant, store: &MemoryCredentialStore<Credential>) -> Option<String> {
    match grant.bearer_from(store) {
        Step::Present(bearer) => Some(bearer),
        _ => None,
    }
}

#[test]
fn the_bearer_is_the_stored_credentials_secret() {
    let mut store = MemoryCredentialStore::new();
    store.save(&a_credential("zc_stored"));
    let mut grant = DeviceGrant::new();

    assert_eq!(bearer(&mut grant, &store).unwrap(), "zc_stored");
    assert!(grant.is_holding());
}

#[test]
fn a_refused_credential_is_forgotten_so_the_next_dial_enrolls() {
    let mut store = MemoryCredentialStore::new();
    store.save(&a_credential("zc_revoked"));
    let mut grant = DeviceGrant::new();
    grant.hold(a_credential("zc_revoked"));

    assert!(grant.forget_refused(&mut store).unwrap());
    assert!(store.load().is_none(), "the refused credential is still stored");
    assert!(!grant.is_holding(), "the refused credential would be dialled again");
    assert_eq!(bearer(&mut grant, &store), None);
}

#[test]
fn a_credential_a_sibling_pod_just_enrolled_is_adopted_not_deleted() {
    let mut store = MemoryCredentialStore::new();
    store.save(&a_credential("zc_new"));
    let mut grant = DeviceGrant::new();
    grant.hold(a_credential("zc_old"));

    assert!(grant.forget_refused(&mut store).unwrap());
    assert_eq!(store.load().unwrap().secret, "zc_new");
    assert_eq!(bearer(&mut grant, &store).unwrap(), "zc_new");
}

#[test]
fn a_refusal_with_nothing_held_adopts_what_is_stored() {
    let mut store = MemoryCredentialStore::new();
    store.save(&a_credential("zc_stored"));
    let mut grant = DeviceGrant::new();

    assert!(grant.forget_refused(&mut store).unwrap());
    assert_eq!(store.load().unwrap(), a_credential("zc_stored"));
    assert_eq!(bearer(&mut grant, &store).unwrap(), "zc_stored");

    assert!(grant.forget_refused(&mut store).unwrap());
    assert!(store.load().is_none());
    assert!(matches!(grant.bearer_from(&store), Step::Enroll));
    assert!(grant.forget_refused(&mut store).unwrap());
    assert!(matches!(grant.bearer_from(&store), Step::Enroll));
}

#[test]
fn an_old_token_variable_is_named_rather_than_ignored() {
    assert_eq!(
        leftover(|name: &str| name == "ZYRIS_NODE_TOKEN_FILE"),
        Some("ZYRIS_NODE_TOKEN_FILE")
    );
    assert_eq!(leftover(|name: &str| name == "ZYRIS_NODE_TOKEN"), Some("ZYRIS_NODE_TOKEN"));
    assert_eq!(leftover(|_: &str| false), None);
}

#[test]
fn the_printed_block_names_the_code_and_where_to_type_it() {
    let block = notice(&code(Moment::new(1_000_600, 0)), &Moment::new(1_000_000, 0));
    assert!(block.contains("WXQR-7KBD"), "the code is missing: {block}");
    assert!(block.contains("https://attacca.example/settings/zyris/device"));
    assert!(block.contains("expires in 10 minutes"), "no idea how long it lasts");
}

#[test]
fn the_printed_block_is_laid_out_for_a_log() {
    let block = notice(&code(Moment::new(1_000_061, 5)), &Moment::new(1_000_000, 0));
    let rule = "-".repeat(62);
    assert_eq!(
        block,
        format!(
            "\n{rule}\n  Authorize this node\n\n  1. Open        https://attacca.example/settings/zyris/device\n  2. Enter code  WXQR-7KBD\n\n  Waiting for approval. This code expires in 2 minutes.\n{rule}\n"
        )
    );
}

#[test]
fn a_code_that_already_expired_still_prints_rather_than_panicking() {
    let now = Moment::new(1_000_000, 0);
    let lapsed = code(Moment::new(999_940, 0));
    assert!(notice(&lapsed, &now).contains("WXQR-7KBD"));
    assert!(notice(&lapsed, &now).contains("expires in 0 minutes"));
    assert_eq!(time_left(&lapsed, &now), Duration::zero());
}

#[test]
fn what_an_operator_gives_wins() {
    let config = RunConfig::default_on(None);
    let both = env(&[("ZYRIS_CREDENTIAL", "zc_a"), ("ZYRIS_CREDENTIAL_FILE", "/run/c")]);
    assert!(matches!(
        source(&config, &both, "linux").ok().unwrap(),
        Source::Static(token) if token.bearer() == "zc_a"
    ));
    let file = env(&[("ZYRIS_CREDENTIAL_FILE", "/run/c"), ("ZYRIS_NODE_TOKEN", "znt_x")]);
    assert!(matches!(
        source(&config, &file, "linux").ok().unwrap(),
        Source::File(file) if file.describe() == "/run/c"
    ));
    let wrong = env(&[("ZYRIS_CREDENTIAL", "znt_x")]);
    assert!(matches!(source(&config, &wrong, "linux"), Err(CredentialsError::Fatal(_))));
}

#[test]
fn a_variable_that_is_no_longer_read_stops_the_node() {
    let config = RunConfig::default_on(None);
    let old = env(&[("ZYRIS_NODE_TOKEN_FILE", "/run/t")]);
    let Err(error) = source(&config, &old, "linux") else { panic!("ignored") };
    assert!(matches!(error, CredentialsError::NeedsOperator(_)));
    assert_eq!(
        error.message(),
        "ZYRIS_NODE_TOKEN_FILE is no longer read: node tokens are gone. Remove it and either let this node enroll itself (approve the printed code at /settings/zyris → Enter a code in Attacca) or pass an existing credential as ZYRIS_CREDENTIAL_FILE or ZYRIS_CREDENTIAL"
    );
}

#[test]
fn enrollment_is_the_last_resort() {
    let given = env(&[("ZYRIS_CONFIG_DIR", "/cfg"), ("ZYRIS_SCOPES", "a,b")]);
    let config = RunConfig::from_env_on(&given, None);
    let machine = Some("srv-a".to_string());
    let Ok(Source::Device(grant)) = source_on(&config, &given, "linux", machine) else {
        panic!("no enrollment")
    };
    assert_eq!(grant.store.describe(), "/cfg/wss-attacca-cc-api-zyris-v1-ws-default.json");
    assert_eq!(grant.url, "wss://attacca.cc/api/zyris/v1/ws");
    assert_eq!(grant.request.program, "zyris-docker");
    assert_eq!(grant.request.system_hint, "srv-a");
    assert_eq!(grant.request.platform, "linux");
    assert_eq!(grant.request.scopes, ["a", "b"]);
    let Ok(Source::Device(grant)) = source(&config, &given, "plan9") else {
        panic!("no enrollment")
    };
    assert_eq!(grant.request.system_hint, zyris::machine_name().unwrap_or_default());
    assert_eq!(grant.request.platform, "other");
}

#[test]
fn an_unusable_credential_is_discarded_and_an_exposed_one_is_not() {
    let mut grant = DeviceGrant::new();
    let unusable = CredentialStoreError::Unusable("corrupt".to_string());
    assert!(matches!(grant.on_loaded(Err(unusable)), Step::Discard));
    assert!(matches!(grant.on_discarded(Ok(())), Step::Enroll));
    let exposed = || CredentialStoreError::Refused("mode 0644".to_string());
    let Step::Fail(error) = grant.on_loaded(Err(exposed())) else { panic!("used") };
    assert!(matches!(&error, CredentialsError::NeedsOperator(m) if m == "mode 0644"));
    let AfterRefusal::Fail(error) = grant.on_loaded_after_refusal(&None, Err(exposed())) else {
        panic!("used")
    };
    assert_eq!(error.message(), "mode 0644");
    let kept = CredentialStoreError::Unusable("EROFS".to_string());
    assert!(matches!(grant.on_discarded(Err(kept)), Step::Fail(CredentialsError::NeedsOperator(_))));
    let kept = CredentialStoreError::Unusable("EROFS".to_string());
    assert_eq!(grant.on_forgotten(Err(kept)).unwrap_err().message(), "EROFS");
}

#[test]
fn a_granted_credential_is_presented_once_it_is_written_down() {
    let mut grant = DeviceGrant::new();
    let mut enrollment = Enrollment::new();
    assert!(matches!(grant.on_loaded(Ok(None)), Step::Enroll));
    assert!(matches!(enrollment.on_progress(Progress::Waiting), Step::Poll));
    let Step::Save(credential) = enrollment.on_progress(Progress::Granted(a_credential("zc_n")))
    else {
        panic!("not saved")
    };
    assert!(!grant.is_holding());
    let full = CredentialStoreError::Unusable("disk full".to_string());
    assert!(matches!(grant.on_saved(a_credential("zc_n"), Err(full)), Step::Fail(_)));
    assert!(!grant.is_holding());
    assert!(matches!(grant.on_saved(credential, Ok(())), Step::Present(b) if b == "zc_n"));
    assert!(grant.is_holding());
    assert_eq!(DeviceGrant::describe("/cfg/x.json"), "device enrollment (/cfg/x.json)");
}

#[test]
fn codes_are_renewed_three_times() {
    let mut enrollment = Enrollment::new();
    for _ in 0..MAX_RENEWALS {
        assert!(matches!(enrollment.on_progress(Progress::Lapsed), Step::Renew));
    }
    let Step::Fail(error) = enrollment.on_progress(Progress::Lapsed) else { panic!("renewed") };
    assert!(matches!(error, CredentialsError::NeedsOperator(_)));
    assert_eq!(
        error.message(),
        "no one approved this node after 3 codes; start it again when somebody is ready to authorize it"
    );
}

#[test]
fn a_denial_needs_a_person() {
    let Step::Fail(error) = Enrollment::new().on_progress(Progress::Denied) else {
        panic!("went on")
    };
    assert!(matches!(&error, CredentialsError::NeedsOperator(m)
        if m == "the request was declined in the browser"));
}

#[test]
fn enrollment_failures_keep_their_shade() {
    let scope = EnrollError::ScopeUnknown { scope: "jobs:write".to_string() };
    let error = enrollment_trouble(scope);
    assert!(matches!(error, CredentialsError::NeedsOperator(_)));
    assert_eq!(
        error.message(),
        "this server does not know the scope jobs:write; it must be removed from the list this build asks for before enrollment can even show a code"
    );
    assert!(matches!(
        enrollment_trouble(EnrollError::Denied("declined".to_string())),
        CredentialsError::NeedsOperator(m) if m == "declined"
    ));
    assert!(matches!(
        enrollment_trouble(EnrollError::Lapsed("expired".to_string())),
        CredentialsError::Unavailable(m) if m == "expired"
    ));
    assert!(matches!(
        enrollment_trouble(EnrollError::Unreachable("down".to_string())),
        CredentialsError::Unavailable(m) if m == "down"
    ));
    let error = store_trouble(&CredentialStoreError::Refused("exposed".to_string()));
    assert!(matches!(error, CredentialsError::NeedsOperator(m) if m == "exposed"));
}
