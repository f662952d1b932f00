use zyris_docker::command::CommandOutput;
use zyris_docker::json::read_bytes;
use zyris_docker::k8s::{available, nodes, pods, read_node, read_pod};

fn printed(stdout: &str) -> Result<CommandOutput, String> {
    Ok(CommandOutput { success: true, stdout: stdout.as_bytes().to_vec(), stderr: vec![] })
}

fn failed(stderr: &str) -> Result<CommandOutput, String> {
    Ok(CommandOutput { success: false, stdout: vec![], stderr: stderr.as_bytes().to_vec() })
}

const PODS: &str = r#"{"items":[
  {"metadata":{"namespace":"shop","name":"web-1"},"spec":{"nodeName":"n1"},
   "status":{"phase":"Running","containerStatuses":[
     {"ready":true,"restartCount":2},{"ready":false,"restartCount":3},{"restartCount":"x"}]}},
  {"metadata":{"namespace":"shop","name":"job"},
   "status":{"phase":"Pending","containerStatuses":[
     {"state":{"waiting":{"reason":"Ignored"}}},
     {"state":{"waiting":{"reason":"ImagePullBackOff"}}}]}},
  {"status":{"phase":"Failed","reason":"Evicted","containerStatuses":[
     {"state":{"waiting":{"reason":"Other"}}}]}}
]}"#;

#[test]
fn pods_are_read_in_order() {
    let all = pods(|args: Vec<String>| {
        assert_eq!(args, ["get", "pods", "-A", "-o", "json"]);
        printed(PODS)
    })
    .unwrap();
    assert_eq!(all.len(), 3);
    assert_eq!((all[0].namespace.as_str(), all[0].name.as_str()), ("shop", "web-1"));
    assert_eq!((all[0].phase.as_str(), all[0].ready.as_str()), ("Running", "1/3"));
    assert_eq!((all[0].restarts, all[0].node.as_str(), all[0].reason.as_str()), (5, "n1", ""));
    assert_eq!((all[1].ready.as_str(), all[1].reason.as_str()), ("0/2", "ImagePullBackOff"));
    assert_eq!(all[1].node, "");
    assert_eq!((all[2].name.as_str(), all[2].reason.as_str()), ("", "Evicted"));
}

#[test]
fn restarts_keep_their_low_bits() {
    let item = br#"{"status":{"containerStatuses":[{"restartCount":4294967295},{"restartCount":2}]}}"#;
    let pod = read_pod(&read_bytes(&item.to_vec()).ok().unwrap());
    assert_eq!(pod.restarts, 1);
    let item = br#"{"status":{"containerStatuses":[{"restartCount":18446744073709551615},{"restartCount":2}]}}"#;
    let pod = read_pod(&read_bytes(&item.to_vec()).ok().unwrap());
    assert_eq!(pod.restarts, 1);
}

#[test]
fn what_is_no_list_has_no_pods() {
    assert_eq!(pods(|_: Vec<String>| printed("{}")).unwrap().len(), 0);
    assert_eq!(pods(|_: Vec<String>| printed("{\"items\":7}")).unwrap().len(), 0);
}

#[test]
fn a_kubectl_that_fails_is_quoted() {
    let why = pods(|_: Vec<String>| Err("No such file".to_string())).err().unwrap();
    assert_eq!(why, "kubectl unavailable: No such file");
    let why = pods(|_: Vec<String>| failed(" forbidden \n")).err().unwrap();
    assert_eq!(why, "forbidden");
    let why = nodes(|_: Vec<String>| printed("nonsense")).err().unwrap();
    assert!(why.starts_with("bad kubectl output: expected ident at line 1"), "{why}");
}

#[test]
fn nodes_are_read_with_their_roles() {
    let all = nodes(|args: Vec<String>| {
        assert_eq!(args, ["get", "nodes", "-o", "json"]);
        printed(
            r#"{"items":[
              {"metadata":{"name":"n1","labels":{"a":"b","node-role.kubernetes.io/control-plane":"",
                "node-role.kubernetes.io/etcd/x":""}},
               "status":{"conditions":[{"type":"DiskPressure","status":"False"},
                 {"type":"Ready","status":"True"},{"type":"Ready","status":"False"}],
                 "nodeInfo":{"kubeletVersion":"v1.30.1"}}},
              {"metadata":{"name":"n2"},"status":{"conditions":[{"type":"Ready","status":"Unknown"}]}}
            ]}"#,
        )
    })
    .unwrap();
    assert_eq!(all[0].name, "n1");
    assert!(all[0].ready);
    assert_eq!(all[0].roles, ["control-plane", "x"]);
    assert_eq!(all[0].version, "v1.30.1");
    assert_eq!(all[1].name, "n2");
    assert!(!all[1].ready);
    assert!(all[1].roles.is_empty());
}

#[test]
fn a_node_without_conditions_is_not_ready() {
    let node = read_node(&read_bytes(&b"{\"metadata\":{\"name\":\"n\"}}".to_vec()).ok().unwrap());
    assert!(!node.ready);
    assert_eq!(node.version, "");
}

#[test]
fn a_cluster_is_there_where_it_tells_its_version() {
    assert!(available(|args: Vec<String>| {
        assert_eq!(args, ["version", "--client=false"]);
        printed("Client Version: v1.30.1\n")
    }));
    assert!(!available(|_: Vec<String>| failed("connection refused")));
    assert!(!available(|_: Vec<String>| Err("No such file".to_string())));
}
