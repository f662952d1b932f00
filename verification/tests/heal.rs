use zyris_docker::command::CommandOutput;
use zyris_docker::config::Config;
use zyris_docker::env::{Env, EnvValue, EnvVar};
use zyris_docker::heal::{
    configured_agent, first_agent, heal_message, heal_session, report_step, ConnSlot, NoAgent,
    NoReport, ReportEvent, ReportNext, SelfHealer,
};
use zyris_docker::monitor::Incident;
use zyris_docker::system::ProcEntry;

fn env(vars: &[(&str, &str)]) -> Env {
    Env {
        vars: vars
            .iter()
            .map(|(name, value)| EnvVar {
                name: name.to_string(),
                value: EnvValue::Text(value.to_string()),
            })
            .collect(),
    }
}

fn config(vars: &[(&str, &str)]) -> Config {
    Config::from_env(&env(vars))
}

fn printed(stdout: &str) -> Result<CommandOutput, String> {
    Ok(CommandOutput { success: true, stdout: stdout.as_bytes().to_vec(), stderr: vec![] })
}

fn down(kind: &str, name: &str) -> Incident {
    Incident { kind: kind.to_string(), name: name.to_string(), detail: "d".to_string() }
}

fn told(incidents: &[Incident]) -> Vec<String> {
    incidents.iter().map(|i| format!("{} {}: {}", i.kind, i.name, i.detail)).collect()
}

fn keys(incidents: &[Incident]) -> Vec<String> {
    incidents.iter().map(|i| i.key()).collect()
}

#[test]
fn every_watched_target_that_is_down_is_an_incident() {
    let healer = SelfHealer::new(config(&[
        ("ZYRISD_WATCH_PROCESSES", "nginx, cron"),
        ("ZYRISD_WATCH_CONTAINERS", "web,db"),
        ("ZYRISD_WATCH_K8S", "1"),
    ]));
    let entries = vec![ProcEntry {
        name: b"5".to_vec(),
        stat: Some("5 (cron) S".to_string()),
        cmdline: None,
    }];
    let docker = |args: Vec<String>| {
        if args[4] == "name=web" {
            printed("{\"Names\":\"web\",\"State\":\"running\"}")
        } else {
            printed("")
        }
    };
    let kubectl = |args: Vec<String>| {
        if args[1] == "pods" {
            printed(
                r#"{"items":[
                  {"metadata":{"namespace":"a","name":"up"},"status":{"phase":"Running"}},
                  {"metadata":{"namespace":"a","name":"done"},"status":{"phase":"Succeeded"}},
                  {"metadata":{"namespace":"a","name":"stuck"},
                   "status":{"phase":"Pending","reason":"Unschedulable"}},
                  {"status":{"phase":"Failed"}}]}"#,
            )
        } else {
            printed(r#"{"items":[{"metadata":{"name":"n1"}}]}"#)
        }
    };
    assert_eq!(
        told(&healer.sample(&entries, docker, kubectl)),
        [
            "process nginx: required process `nginx` is not running in this container",
            "container db: required docker container `db` is not running",
            "k8s_pod a/stuck: pod in phase Pending (Unschedulable)",
            "k8s_node n1: node is not Ready",
        ]
    );
}

#[test]
fn a_cluster_that_cannot_be_read_is_one_incident() {
    let healer = SelfHealer::new(config(&[("ZYRISD_WATCH_K8S", "true")]));
    let gone = |_: Vec<String>| Err("gone".to_string());
    assert_eq!(
        told(&healer.sample(&vec![], gone, gone)),
        ["k8s cluster: could not read pods: kubectl unavailable: gone"]
    );
    let idle = SelfHealer::new(config(&[]));
    assert!(idle.sample(&vec![], gone, gone).is_empty());
}

#[test]
fn what_stays_down_is_reported_once_and_again_after_it_came_back() {
    let mut healer = SelfHealer::new(config(&[]));
    let both = vec![down("process", "a"), down("process", "b")];
    assert_eq!(keys(&healer.tick(&both, true)), ["process:a", "process:b"]);
    assert!(healer.tick(&both, true).is_empty());
    assert!(healer.tick(&vec![down("process", "b")], true).is_empty());
    assert_eq!(keys(&healer.tick(&both, true)), ["process:a"]);
}

#[test]
fn the_same_target_twice_in_one_sample_is_reported_once() {
    let mut healer = SelfHealer::new(config(&[]));
    let twice = vec![down("process", "a"), down("process", "a"), down("container", "a")];
    assert_eq!(keys(&healer.tick(&twice, true)), ["process:a", "container:a"]);
}

#[test]
fn what_could_not_be_reported_is_reported_once_there_is_a_connection() {
    let mut healer = SelfHealer::new(config(&[]));
    let one = vec![down("container", "web")];
    assert!(healer.tick(&one, false).is_empty());
    assert_eq!(keys(&healer.tick(&one, true)), ["container:web"]);
    assert!(healer.tick(&one, false).is_empty());
    assert!(healer.tick(&one, true).is_empty());
}

#[test]
fn an_agent_is_the_configured_one_or_the_first_readable() {
    assert_eq!(configured_agent(&config(&[("ZYRISD_HEAL_AGENT_ID", "agent-7")])).unwrap(), "agent-7");
    assert!(configured_agent(&config(&[])).is_none());
    assert!(matches!(first_agent(Ok(vec!["a".to_string(), "b".to_string()])), Ok(id) if id == "a"));
    assert!(matches!(first_agent(Ok(vec![])), Err(NoAgent::NoneReadable)));
    assert!(
        matches!(first_agent(Err("403".to_string())), Err(NoAgent::Unlisted(why)) if why == "403")
    );
}

#[test]
fn a_session_names_the_incident_and_carries_the_preamble() {
    let cfg = config(&[("ZYRISD_HEAL_PROJECT_ID", "p1"), ("ZYRISD_HEAL_PREAMBLE", "fix it")]);
    let incident = Incident {
        kind: "process".to_string(),
        name: "nginx".to_string(),
        detail: "gone".to_string(),
    };
    let session = heal_session(&cfg, "agent-7", &incident);
    assert_eq!(session.agent_id, "agent-7");
    assert_eq!(session.title.unwrap(), "zyris-docker incident: process nginx");
    assert_eq!(session.project_id.unwrap(), "p1");
    assert_eq!(session.preamble.unwrap(), "fix it");
    assert_eq!(
        heal_message(&incident),
        "Self-healing incident on container node.\n\ngone\n\nDiagnose with this node's `monitor` and `exec` capabilities, fix what you can, and report back what broke, what you found, what you did, and what remains."
    );
}

#[test]
fn a_report_opens_a_session_and_then_sends_the_incident_to_it() {
    let cfg = config(&[("ZYRISD_HEAL_AGENT_ID", "agent-7"), ("ZYRISD_HEAL_PROJECT_ID", "p1")]);
    let incident = down("container", "web");
    let ReportNext::Open(session) = report_step(&cfg, &incident, ReportEvent::Ready(Ok(()))) else {
        panic!("not opened")
    };
    assert_eq!(session.agent_id, "agent-7");
    assert_eq!(session.title.unwrap(), "zyris-docker incident: container web");
    assert_eq!(session.project_id.unwrap(), "p1");
    assert_eq!(session.preamble.unwrap(), cfg.heal_preamble);
    let opened = ReportEvent::Opened(Ok("s-1".to_string()));
    let ReportNext::Send { session, message } = report_step(&cfg, &incident, opened) else {
        panic!("not sent")
    };
    assert_eq!(session, "s-1");
    assert_eq!(message, heal_message(&incident));
    assert!(matches!(report_step(&cfg, &incident, ReportEvent::Sent(Ok(()))), ReportNext::Done));
}

#[test]
fn a_report_without_a_configured_agent_goes_to_the_first_listed() {
    let cfg = config(&[]);
    let incident = down("process", "nginx");
    let next = report_step(&cfg, &incident, ReportEvent::Ready(Ok(())));
    assert!(matches!(next, ReportNext::ListAgents));
    let listed = ReportEvent::Listed(Ok(vec!["a".to_string(), "b".to_string()]));
    let ReportNext::Open(session) = report_step(&cfg, &incident, listed) else {
        panic!("not opened")
    };
    assert_eq!(session.agent_id, "a");
    assert_eq!(session.title.unwrap(), "zyris-docker incident: process nginx");
    assert!(session.project_id.is_none());
}

#[test]
fn whatever_fails_ends_a_report() {
    let ended = |event: ReportEvent| {
        match report_step(&config(&[]), &down("process", "nginx"), event) {
            ReportNext::GiveUp(why) => why,
            _ => panic!("went on"),
        }
    };
    let said = || "403".to_string();
    assert!(matches!(ended(ReportEvent::Ready(Err(said()))), NoReport::Unannounced(w) if w == "403"));
    assert!(matches!(
        ended(ReportEvent::Listed(Err(said()))),
        NoReport::NoAgent(NoAgent::Unlisted(w)) if w == "403"
    ));
    assert!(matches!(
        ended(ReportEvent::Listed(Ok(vec![]))),
        NoReport::NoAgent(NoAgent::NoneReadable)
    ));
    assert!(matches!(ended(ReportEvent::Opened(Err(said()))), NoReport::Unopened(w) if w == "403"));
    assert!(matches!(ended(ReportEvent::Sent(Err(said()))), NoReport::Unsent(w) if w == "403"));
}

#[test]
fn a_slot_holds_the_latest_connection() {
    let mut slot: ConnSlot<u8> = ConnSlot::new();
    assert!(slot.get().is_none());
    slot.put(1);
    slot.put(2);
    assert_eq!(slot.get(), Some(&2));
}
