use zyris_docker::config::{Config, DEFAULT_HEAL_PREAMBLE};
use zyris_docker::env::{Env, EnvValue, EnvVar};
use zyris_docker::gate::PathGate;
use zyris_docker::numbers::{parse_signed, parse_unsigned, write_decimal, write_number};
use zyris_docker::path::NodePath;
use zyris_docker::roots::resolve_roots;
use zyris_docker::runtime::store::FileCredentialStore;
use zyris_docker::text::{lines_of, list_of, trim, words_of};
use zyris_docker::time::{Duration, Moment};

fn env(vars: &[(&str, &str)]) -> Env {
    Env {
        vars: vars
            .iter()
            .map(|(name, value)| EnvVar {
                name: name.to_string(),
                value: EnvValue::Text(value.to_string()),
            })
            .collect(),
    }
}

#[test]
fn a_node_that_nobody_configured_watches_nothing() {
    let none = env(&[]);
    let cfg = Config::from_env(&none);
    assert_eq!(cfg.monitor_interval, Duration::from_secs(30));
    assert!(cfg.watch_processes.is_empty() && cfg.watch_containers.is_empty() && !cfg.watch_k8s);
    assert!(cfg.heal_agent_id.is_none() && cfg.heal_project_id.is_none());
    assert_eq!(cfg.heal_preamble, DEFAULT_HEAL_PREAMBLE);
    assert!(cfg.file_roots.is_empty());
    assert_eq!(cfg.exec_timeout, Duration::from_secs(120));
    assert_eq!(cfg.max_output_bytes(&none), 262_144);
    assert!(DEFAULT_HEAL_PREAMBLE.starts_with("You are the self-healing incident responder"));
    assert!(DEFAULT_HEAL_PREAMBLE.ends_with("what you did, and what remains."));
}

#[test]
fn every_option_is_read() {
    let given = env(&[
        ("ZYRISD_MONITOR_INTERVAL_SECS", "5"),
        ("ZYRISD_WATCH_PROCESSES", " nginx ,, cron,"),
        ("ZYRISD_WATCH_CONTAINERS", "web"),
        ("ZYRISD_WATCH_K8S", "yes"),
        ("ZYRISD_HEAL_AGENT_ID", "a"),
        ("ZYRISD_HEAL_PROJECT_ID", "p"),
        ("ZYRISD_HEAL_PREAMBLE", "fix"),
        ("ZYRISD_FILE_ROOTS", "/data,/srv"),
        ("ZYRISD_EXEC_TIMEOUT_SECS", "+7"),
        ("ZYRISD_MAX_OUTPUT_BYTES", "9"),
    ]);
    let cfg = Config::from_env(&given);
    assert_eq!(cfg.monitor_interval, Duration::from_secs(5));
    assert_eq!(cfg.watch_processes, ["nginx", "cron"]);
    assert_eq!(cfg.watch_containers, ["web"]);
    assert!(cfg.watch_k8s);
    assert_eq!(cfg.heal_agent_id.as_deref(), Some("a"));
    assert_eq!(cfg.heal_project_id.as_deref(), Some("p"));
    assert_eq!(cfg.heal_preamble, "fix");
    assert_eq!(cfg.file_roots, ["/data", "/srv"]);
    assert_eq!(cfg.exec_timeout, Duration::from_secs(7));
    assert_eq!(cfg.max_output_bytes(&given), 9);
}

#[test]
fn an_option_that_makes_no_sense_is_as_good_as_none() {
    let given = env(&[
        ("ZYRISD_MONITOR_INTERVAL_SECS", "soon"),
        ("ZYRISD_WATCH_K8S", "TRUE"),
        ("ZYRISD_HEAL_AGENT_ID", "  "),
        ("ZYRISD_MAX_OUTPUT_BYTES", "0"),
    ]);
    let cfg = Config::from_env(&given);
    assert_eq!(cfg.monitor_interval, Duration::from_secs(30));
    assert!(!cfg.watch_k8s);
    assert!(cfg.heal_agent_id.is_none());
    assert_eq!(cfg.max_output_bytes(&given), 262_144);
}

#[test]
fn roots_default_to_the_whole_file_system_and_secrets_are_denied() {
    let none = env(&[]);
    let (roots, deny) = resolve_roots(&Config::from_env(&none), &none);
    assert_eq!(roots, [b"/".to_vec()]);
    assert_eq!(
        deny,
        [
            b"/run/secrets".to_vec(),
            b"/var/run/secrets".to_vec(),
            b"/var/lib/zyris-docker".to_vec()
        ]
    );
    let given = env(&[("ZYRISD_FILE_ROOTS", "/data, /srv"), ("ZYRIS_CONFIG_DIR", "/cfg")]);
    let (roots, deny) = resolve_roots(&Config::from_env(&given), &given);
    assert_eq!(roots, [b"/data".to_vec(), b"/srv".to_vec()]);
    assert_eq!(deny[2], b"/cfg".to_vec());
}

#[test]
fn the_credential_file_cannot_be_reached_from_any_root() {
    let given = env(&[("ZYRIS_CONFIG_DIR", "/data/cfg"), ("ZYRISD_FILE_ROOTS", "/data")]);
    let (roots, deny) = resolve_roots(&Config::from_env(&given), &given);
    let gate = PathGate { roots, deny };
    let file = FileCredentialStore::for_server(&given, "wss://x", "default").describe();
    assert_eq!(file, "/data/cfg/wss-x-default.json");
    assert!(gate.check(&file, |path: &NodePath| Some(path.copy())).is_err());
    assert!(gate.check("cfg/../cfg", |path: &NodePath| Some(path.copy())).is_err());
    assert!(gate.check("cfg2", |path: &NodePath| Some(path.copy())).is_ok());
}

#[test]
fn text_is_split_as_the_standard_library_splits_it() {
    for s in ["", "a", " a b ", "a\r\nb\n", "\n\n", "a\rb\r", "x\u{2003}y\u{85}z", ",a,, b ,"] {
        assert_eq!(trim(s), s.trim());
        assert_eq!(lines_of(s), s.lines().collect::<Vec<_>>());
        assert_eq!(words_of(s), s.split_whitespace().collect::<Vec<_>>());
        let list: Vec<&str> = s.split(',').map(str::trim).filter(|e| !e.is_empty()).collect();
        assert_eq!(list_of(s), list);
    }
    for code in 0..0x11_0000u32 {
        if let Some(c) = char::from_u32(code) {
            let s = c.to_string();
            assert_eq!(trim(&s), s.trim(), "{code:x}");
        }
    }
}

#[test]
fn numbers_are_read_as_the_standard_library_reads_them() {
    for s in ["", "0", "+7", "-7", "007", "1_0", "18446744073709551615", "18446744073709551616", "٣"] {
        assert_eq!(parse_unsigned(s, u64::MAX), s.parse::<u64>().ok(), "{s}");
    }
    for s in ["-2147483648", "-2147483649", "2147483647", "2147483648", "+1", "-", "+", "-0"] {
        assert_eq!(parse_signed(s), s.parse::<i32>().ok(), "{s}");
    }
    for n in [0, 9, 10, 420, u64::MAX] {
        assert_eq!(write_decimal(n), n.to_string());
        assert_eq!(write_number(n, 8), format!("{n:o}"));
        assert_eq!(parse_unsigned(&write_decimal(n), u64::MAX), Some(n));
    }
}

#[test]
fn paths_are_read_as_their_parts() {
    for (given, spelled) in [
        ("/a//b/./c/", "/a/b/c"),
        ("./a/..", "./a/.."),
        ("a", "a"),
        ("", ""),
        ("//", "/"),
        (".", "."),
        ("a/.", "a"),
    ] {
        assert_eq!(NodePath::parse(given.as_bytes()).spell(), spelled.as_bytes(), "{given}");
    }
    let base = NodePath::parse(b"/data/root");
    assert!(NodePath::parse(b"/data/root/x").is_under(&base));
    assert!(NodePath::parse(b"/data/root/").is_under(&base));
    assert!(!NodePath::parse(b"/data/root-evil").is_under(&base));
}

#[test]
fn spans_and_moments_are_exact() {
    assert_eq!(Duration::from_millis(1_500).as_nanos(), 1_500_000_000);
    assert_eq!(Duration::new(1, 999_999_999).as_millis(), 1_999);
    assert_eq!(Duration::from_secs(3).doubled(), Duration::from_secs(6));
    assert_eq!(Duration::from_secs(3).shorter(Duration::from_secs(2)), Duration::from_secs(2));
    let later = Moment::new(10, 1);
    let earlier = Moment::new(-5, 2);
    assert_eq!(later.since(&earlier), Duration::new(14, 999_999_999));
    assert_eq!(earlier.since(&later), Duration::zero());
}
