use zyris_docker::env::{Env, EnvValue, EnvVar};
use zyris_docker::runtime::credentials::CredentialsError;
use zyris_docker::runtime::runner::{
    exit_status, jitter, jitter_with, ConnectError, Dialer, Next, Refusal, RunConfig, RunError,
};
use zyris_docker::time::Duration;

fn env(vars: &[(&str, &str)]) -> Env {
    Env {
        vars: vars
            .iter()
            .map(|(name, value)| EnvVar {
                name: name.to_string(),
                value: EnvValue::Text(value.to_string()),
            })
            .collect(),
    }
}

fn seconds(next: Next) -> u64 {
    match next {
        Next::Wait(span) => span.as_secs(),
        _ => panic!("not a wait"),
    }
}

fn stopped(next: Next) -> RunError {
    match next {
        Next::Stop(error) => error,
        _ => panic!("not a stop"),
    }
}

#[test]
fn jitter_stays_within_twenty_percent_and_actually_varies() {
    let base = Duration::from_secs(10);
    let samples: Vec<Duration> = (0..64).map(|_| jitter(base)).collect();
    for sample in &samples {
        assert!(
            *sample >= Duration::from_secs(8) && *sample <= Duration::from_secs(12),
            "{sample:?}"
        );
    }
    assert!(
        samples.iter().any(|s| *s != samples[0]),
        "every node backing off by the same amount is the thundering herd this exists to avoid"
    );
}

#[test]
fn a_roll_decides_the_jitter() {
    let base = Duration::from_secs(10);
    assert_eq!(jitter_with(base, 0), Duration::from_secs(8));
    assert_eq!(jitter_with(base, 200), Duration::from_secs(10));
    assert_eq!(jitter_with(base, 399), Duration::from_millis(11_990));
    assert_eq!(jitter_with(base, 400), Duration::from_secs(8));
    assert_eq!(jitter_with(Duration::from_nanos(3), 399), Duration::from_nanos(4));
}

#[test]
fn defaults_point_at_the_default_deployment() {
    let config = RunConfig::default();
    assert_eq!(config.url, zyris::DEFAULT_SERVER_URL);
    assert!(config.scopes.is_empty(), "a bare default must not ask for account access");
    assert!(!config.scopes_pinned(), "nobody has said anything about scopes yet");
    assert!(!config.node_name.is_empty());
    assert_eq!(config.profile, "default");
    assert_eq!(config.backoff_min, Duration::from_secs(1));
    assert_eq!(config.backoff_max, Duration::from_secs(30));
    assert_eq!(config.stable_after, Duration::from_secs(30));
}

#[test]
fn the_node_is_named_after_its_machine() {
    let machine = zyris::machine_name().unwrap_or_else(|| "zyris-node".to_string());
    assert_eq!(RunConfig::default().node_name, machine);
    assert_eq!(RunConfig::from_env(&env(&[])).node_name, machine);
    assert_eq!(RunConfig::default_on(None).node_name, "zyris-node");
}

#[test]
fn the_environment_configures_a_node() {
    let given = env(&[
        ("ZYRIS_SERVER_URL", "wss://x"),
        ("ZYRIS_NODE_NAME", "srv"),
        ("ZYRIS_PROFILE", " "),
        ("ZYRIS_SCOPES", "a, ,b"),
    ]);
    let config = RunConfig::from_env(&given).request_scopes(&given);
    assert_eq!(config.url, "wss://x");
    assert_eq!(config.node_name, "srv");
    assert_eq!(config.profile, "default");
    assert_eq!(config.scopes, ["a", "b"]);
    assert!(config.scopes_pinned());
}

#[test]
fn scopes_are_this_nodes_own_unless_an_operator_sets_them() {
    let none = env(&[]);
    let config = RunConfig::from_env(&none).request_scopes(&none);
    assert_eq!(
        config.scopes,
        ["agents:read", "sessions:write", "sessions:read", "projects:read", "jobs:write"]
    );
    assert!(!config.scopes_pinned());
    let empty = env(&[("ZYRIS_SCOPES", "")]);
    let config = RunConfig::from_env(&empty).request_scopes(&empty);
    assert!(config.scopes.is_empty());
    assert!(config.scopes_pinned());
}

#[test]
fn a_platform_is_one_of_four() {
    let config = RunConfig::default_on(None);
    assert_eq!(config.platform("linux"), "linux");
    assert_eq!(config.platform("macos"), "macos");
    assert_eq!(config.platform("windows"), "windows");
    assert_eq!(config.platform("freebsd"), "other");
}

#[test]
fn a_refusal_is_classified_by_what_another_dial_could_possibly_change() {
    let rotate = [ConnectError::Unauthorized, ConnectError::Revoked];
    for error in rotate {
        assert!(matches!(Refusal::of(&error), Refusal::Rotate), "{error:?}");
    }

    let mismatch =
        ConnectError::VersionMismatch { ours: "1".to_string(), theirs: Some("2".to_string()) };
    let fatal = [mismatch, ConnectError::NoTlsProvider];
    for error in fatal {
        assert!(matches!(Refusal::of(&error), Refusal::Fatal), "{error:?}");
    }

    let blip = ConnectError::Unreachable("closed".to_string());
    assert!(matches!(Refusal::of(&blip), Refusal::Backoff), "{blip:?}");
}

#[test]
fn only_the_failures_a_person_must_fix_exit_two() {
    let operator = RunError::Credentials(CredentialsError::NeedsOperator("approve".into()));
    assert_eq!(operator.exit_code(), 2);

    let fatal = RunError::Credentials(CredentialsError::Fatal("bad token".into()));
    assert_eq!(fatal.exit_code(), 1);
    assert_eq!(RunError::Refused("revoked".into()).exit_code(), 1);

    assert_eq!(RunError::Build("twice".into()).exit_code(), 2);
    assert_eq!(exit_status(&Ok(())), 0);
    assert_eq!(exit_status(&Err(RunError::Refused("revoked".into()))), 1);
    assert_eq!(exit_status(&Err(RunError::from(CredentialsError::Unavailable("x".into())))), 1);
}

#[test]
fn an_end_says_why() {
    assert_eq!(
        RunError::Refused("revoked".into()).message(),
        "the server refused this node: revoked"
    );
    assert_eq!(RunError::Build("twice".into()).message(), "could not build the node: twice");
    assert_eq!(RunError::from(CredentialsError::Fatal("bad".into())).message(), "bad");
}

#[test]
fn the_backoff_doubles_up_to_its_ceiling_and_a_healthy_connection_resets_it() {
    let mut dialer = Dialer::new(&RunConfig::default_on(None));
    let down = || ConnectError::Unreachable("x".to_string());
    let waits: Vec<u64> = (0..7).map(|_| seconds(dialer.on_refused(&down(), "x"))).collect();
    assert_eq!(waits, [1, 2, 4, 8, 16, 30, 30]);
    assert_eq!(seconds(dialer.on_closed(Duration::from_secs(29))), 30);
    assert_eq!(seconds(dialer.on_closed(Duration::from_secs(30))), 1);
    assert_eq!(seconds(dialer.on_refused(&down(), "x")), 2);
}

#[test]
fn every_kind_of_outage_doubles_the_backoff() {
    let mut dialer = Dialer::new(&RunConfig::default_on(None));
    let away = || CredentialsError::Unavailable("x".to_string());
    assert_eq!(seconds(dialer.on_bearer(Err(away()))), 1);
    assert_eq!(seconds(dialer.on_refused(&ConnectError::Unreachable("x".into()), "x")), 2);
    assert_eq!(seconds(dialer.on_closed(Duration::from_secs(29))), 4);
    assert!(matches!(dialer.on_refused(&ConnectError::Unauthorized, "no"), Next::Forget));
    assert_eq!(seconds(dialer.on_forgotten(Err(away()), "no")), 8);
    assert_eq!(seconds(dialer.on_bearer(Err(away()))), 16);
    assert_eq!(seconds(dialer.on_bearer(Err(away()))), 30);
}

#[test]
fn a_refusal_is_answered_with_one_replacement() {
    let mut dialer = Dialer::new(&RunConfig::default_on(None));
    assert!(matches!(dialer.on_refused(&ConnectError::Unauthorized, "no"), Next::Forget));
    assert!(matches!(dialer.on_forgotten(Ok(true), "no"), Next::Ask));
    assert!(matches!(dialer.on_bearer(Ok("zc_new".to_string())), Next::Dial(b) if b == "zc_new"));
    let end = stopped(dialer.on_refused(&ConnectError::Revoked, "still no"));
    assert!(matches!(end, RunError::Refused(why) if why == "still no"));

    let mut dialer = Dialer::new(&RunConfig::default_on(None));
    assert!(matches!(dialer.on_refused(&ConnectError::Revoked, "no"), Next::Forget));
    assert_eq!(seconds(dialer.on_closed(Duration::from_secs(1))), 1);
    assert!(matches!(dialer.on_refused(&ConnectError::Revoked, "no"), Next::Forget));
    let end = stopped(dialer.on_forgotten(Ok(false), "no"));
    assert!(matches!(end, RunError::Refused(why) if why == "no"));
}

#[test]
fn what_cannot_be_reached_is_waited_for() {
    let mut dialer = Dialer::new(&RunConfig::default_on(None));
    let away = || CredentialsError::Unavailable("x".to_string());
    assert_eq!(seconds(dialer.on_bearer(Err(away()))), 1);
    assert!(matches!(dialer.on_refused(&ConnectError::Unauthorized, "no"), Next::Forget));
    assert_eq!(seconds(dialer.on_forgotten(Err(away()), "no")), 2);
    assert!(matches!(dialer.on_refused(&ConnectError::Unauthorized, "no"), Next::Forget));
}

#[test]
fn what_no_retry_can_fix_stops_the_loop() {
    let mut dialer = Dialer::new(&RunConfig::default_on(None));
    let end = stopped(dialer.on_bearer(Err(CredentialsError::Fatal("bad".to_string()))));
    assert_eq!(end.exit_code(), 1);
    let end = stopped(dialer.on_refused(&ConnectError::NoTlsProvider, "no tls"));
    assert_eq!(end.message(), "the server refused this node: no tls");
    let operator = CredentialsError::NeedsOperator("approve".to_string());
    let end = stopped(dialer.on_forgotten(Err(operator), "no"));
    assert_eq!(end.exit_code(), 2);
}
