use zyris_docker::command::CommandOutput;
use zyris_docker::monitor::{map_err, MonitorNode};
use zyris_docker::wire::ErrorCode;

fn printed(stdout: &str) -> Result<CommandOutput, String> {
    Ok(CommandOutput { success: true, stdout: stdout.as_bytes().to_vec(), stderr: vec![] })
}

fn failed(stderr: &str) -> Result<CommandOutput, String> {
    Ok(CommandOutput { success: false, stdout: b"x".to_vec(), stderr: stderr.as_bytes().to_vec() })
}

#[test]
fn a_failed_reading_is_refused_as_the_monitors_own() {
    let error = map_err("no daemon".to_string());
    assert_eq!(error.code, ErrorCode::Other("monitor".to_string()));
    assert_eq!(error.message, "no daemon");
    let node = MonitorNode::new();
    let error = node.docker_list(|_: Vec<String>| failed("no daemon\n")).err().unwrap();
    assert_eq!(error.code, ErrorCode::Other("monitor".to_string()));
    assert_eq!(error.message, "no daemon");
    let error = node.docker_container("web", |_: Vec<String>| printed("")).err().unwrap();
    assert_eq!(error.message, "no container web");
    let error = node.k8s_pods(|_: Vec<String>| Err("gone".to_string())).err().unwrap();
    assert_eq!(error.message, "kubectl unavailable: gone");
    assert!(node.k8s_nodes(|_: Vec<String>| printed("{}")).unwrap().is_empty());
    assert!(node.k8s_available(|_: Vec<String>| printed("v1")));
    assert!(!node.docker_running("web", |_: Vec<String>| printed("")));
}

#[test]
fn an_action_tells_what_docker_said() {
    let node = MonitorNode::new();
    let started = node.docker_start("web", |args: Vec<String>| {
        assert_eq!(args, ["start", "web"]);
        printed("web\n")
    });
    assert!(started.ok);
    assert_eq!(started.output, "web");
    let restarted = node.docker_restart("web", |args: Vec<String>| {
        assert_eq!(args, ["restart", "web"]);
        failed(" No such container: web \n")
    });
    assert!(!restarted.ok);
    assert_eq!(restarted.output, "No such container: web");
    let absent = node.docker_start("web", |_: Vec<String>| Err("No such file".to_string()));
    assert!(!absent.ok);
    assert_eq!(absent.output, "No such file");
}
