use zyris_docker::command::CommandOutput;
use zyris_docker::docker::{
    container_info, container_running, list_containers, parse_container_line, read_container,
};
use zyris_docker::json::{read_text, Json};

fn printed(stdout: &str) -> Result<CommandOutput, String> {
    Ok(CommandOutput { success: true, stdout: stdout.as_bytes().to_vec(), stderr: vec![] })
}

fn failed(stderr: &str) -> Result<CommandOutput, String> {
    Ok(CommandOutput { success: false, stdout: vec![], stderr: stderr.as_bytes().to_vec() })
}

const ROWS: &str = "{\"ID\":\"1\",\"Names\":\"web\",\"State\":\"running\",\"Image\":\"nginx\",\"Status\":\"Up\"}\nnot json\r\n{\"ID\":\"2\"}\n{\"ID\":\"3\",\"Names\":\"db,alias\",\"State\":\"exited\"}\n";

#[test]
fn parses_docker_ps_row() {
    let row = r#"{"Command":"nginx -g daemon off;","CreatedAt":"2026-08-18 10:00:00","ID":"abc123","Image":"nginx:alpine","Labels":"","LocalVolumes":"0","Mounts":"","Names":"web","Networks":"bridge","Ports":"0.0.0.0:80->80/tcp","RunningFor":"3 hours ago","Size":"0B","State":"running","Status":"Up 3 hours"}"#;
    let c = parse_container_line(row).unwrap();
    assert_eq!(c.id, "abc123");
    assert_eq!(c.name, "web");
    assert_eq!(c.state, "running");
    assert!(c.running);
    assert_eq!(c.image, "nginx:alpine");
    assert_eq!(c.status, "Up 3 hours");
}

#[test]
fn a_row_without_names_is_no_container() {
    assert!(parse_container_line("{\"ID\":\"1\"}").is_none());
    assert!(parse_container_line("{\"Names\":7}").is_none());
    assert!(parse_container_line("[\"Names\"]").is_none());
    assert!(parse_container_line("{not json").is_none());
}

#[test]
fn missing_fields_read_as_empty_and_the_first_name_counts() {
    let row = Json::Object(vec![("Names".to_string(), Json::Text("a,b".to_string()))]);
    let c = read_container(&row).unwrap();
    assert_eq!((c.name.as_str(), c.id.as_str(), c.state.as_str()), ("a", "", ""));
    assert!(!c.running);
}

#[test]
fn listing_asks_docker_and_passes_over_other_lines() {
    let all = list_containers(|args: Vec<String>| {
        assert_eq!(args, ["ps", "-a", "--no-trunc", "--format", "{{json .}}"]);
        printed(ROWS)
    })
    .unwrap();
    let names: Vec<&str> = all.iter().map(|c| c.name.as_str()).collect();
    assert_eq!(names, ["web", "db"]);
}

#[test]
fn a_docker_that_fails_is_quoted() {
    let why = list_containers(|_: Vec<String>| failed("  permission denied\n")).err().unwrap();
    assert_eq!(why, "permission denied");
    let why = list_containers(|_: Vec<String>| Err("No such file".to_string())).err().unwrap();
    assert_eq!(why, "No such file");
}

#[test]
fn one_container_is_found_by_name_and_else_by_id() {
    let by_name = container_info("web", |args: Vec<String>| {
        assert_eq!(
            args,
            ["ps", "-a", "--no-trunc", "--filter", "name=web", "--format", "{{json .}}"]
        );
        printed(ROWS)
    })
    .unwrap();
    assert_eq!(by_name.id, "1");

    let by_id = container_info("3f", |args: Vec<String>| {
        if args[4] == "id=3f" {
            printed("{\"ID\":\"3f00\",\"Names\":\"db\"}")
        } else {
            printed("")
        }
    })
    .unwrap();
    assert_eq!(by_id.id, "3f00");

    let none = container_info("ghost", |_: Vec<String>| printed("")).err().unwrap();
    assert_eq!(none, "no container ghost");
}

#[test]
fn a_container_runs_only_where_docker_says_so() {
    assert!(container_running("web", |_: Vec<String>| printed(ROWS)));
    assert!(!container_running("db", |_: Vec<String>| printed(
        "{\"Names\":\"db\",\"State\":\"exited\"}"
    )));
    assert!(!container_running("db", |_: Vec<String>| failed("no daemon")));
}

#[test]
fn a_name_that_contains_another_is_not_taken_for_it() {
    let rows = "{\"ID\":\"2\",\"Names\":\"web-canary\",\"State\":\"running\"}\n{\"ID\":\"1\",\"Names\":\"web\",\"State\":\"exited\"}\n";
    assert!(!container_running("web", |_: Vec<String>| printed(rows)));
    assert_eq!(container_info("web", |_: Vec<String>| printed(rows)).unwrap().id, "1");

    let others = "{\"ID\":\"2\",\"Names\":\"web-canary\",\"State\":\"running\"}\n";
    let none = container_info("web", |args: Vec<String>| {
        if args[4] == "name=web" {
            printed(others)
        } else {
            printed("")
        }
    });
    assert_eq!(none.err().unwrap(), "no container web");
    assert!(!container_running("web", |_: Vec<String>| printed(others)));
}

#[test]
fn a_container_is_found_by_each_of_its_names() {
    let rows = "{\"ID\":\"2\",\"Names\":\"web-canary,front/alias\",\"State\":\"exited\"}\n{\"ID\":\"1\",\"Names\":\"web,alias\",\"State\":\"running\"}\n";
    for selector in ["web", "alias"] {
        let found = container_info(selector, |_: Vec<String>| printed(rows)).unwrap();
        assert_eq!((found.id.as_str(), found.name.as_str()), ("1", "web"));
        assert!(container_running(selector, |_: Vec<String>| printed(rows)));
    }
    let found = container_info("front/alias", |_: Vec<String>| printed(rows)).unwrap();
    assert_eq!((found.id.as_str(), found.name.as_str()), ("2", "web-canary"));
    let none = container_info("web,alias", |_: Vec<String>| printed(rows)).err().unwrap();
    assert_eq!(none, "no container web,alias");
}

#[test]
fn an_id_is_found_by_how_it_begins() {
    let rows = "{\"ID\":\"a3f0\",\"Names\":\"other\"}\n{\"ID\":\"3f00\",\"Names\":\"db\"}\n";
    let found = container_info("3f", |_: Vec<String>| printed(rows)).unwrap();
    assert_eq!(found.name, "db");
}

#[test]
fn json_is_read_as_the_parser_reads_it() {
    let value = read_text("{\"b\":[true,7,-1,1.5,null],\"a\":\"x\",\"b\":[1]}").unwrap();
    let Json::Object(fields) = value else { panic!("no object") };
    let names: Vec<&str> = fields.iter().map(|(name, _)| name.as_str()).collect();
    assert_eq!(names, ["a", "b"]);
    assert!(matches!(&fields[0].1, Json::Text(s) if s == "x"));
    assert!(matches!(&fields[1].1, Json::Array(items) if items.len() == 1));

    let Some(Json::Array(items)) = read_text("[true, 7, -1, 1.5, null, \"t\"]") else {
        panic!("no array")
    };
    assert!(matches!(items[0], Json::Bool(true)));
    assert!(matches!(items[1], Json::Count(7)));
    assert!(matches!(items[2], Json::Other));
    assert!(matches!(items[3], Json::Other));
    assert!(matches!(items[4], Json::Other));
    assert!(matches!(&items[5], Json::Text(s) if s == "t"));
}
