use std::path::{Path, PathBuf};

use zyris_docker::gate::{
    canonicalize_deepest, follow_link, join_like_upstream, Location, PathGate,
};
use zyris_docker::path::NodePath;
use zyris_docker::wire::ErrorCode;

fn bytes(path: &Path) -> Vec<u8> {
    path.to_str().unwrap().as_bytes().to_vec()
}

fn shown(path: &NodePath) -> String {
    String::from_utf8(path.spell()).unwrap()
}

fn probe(path: &NodePath) -> Option<NodePath> {
    let at = PathBuf::from(shown(path));
    if let Ok(found) = at.canonicalize() {
        return Some(NodePath::parse(&bytes(&found)));
    }
    let target = at.read_link().ok()?;
    let directory = at.parent()?.canonicalize().ok()?;
    let (directory, target) = (NodePath::parse(&bytes(&directory)), NodePath::parse(&bytes(&target)));
    Some(follow_link(&directory, &target, probe))
}

fn located(path: PathBuf) -> Location {
    let canonical = path.canonicalize().ok().map(|real| bytes(&real));
    Location { given: bytes(&path), canonical }
}

fn gate(root: &Path) -> PathGate {
    PathGate::new(vec![located(root.to_path_buf())], vec![located(root.join("secret"))])
}

fn on_disk<F: std::future::Future>(work: F) -> F::Output {
    tokio::runtime::Builder::new_current_thread().enable_all().build().unwrap().block_on(work)
}

#[test]
fn a_relative_path_joins_the_root() {
    let dir = tempfile::tempdir().unwrap();
    let root = dir.path().canonicalize().unwrap();
    on_disk(tokio::fs::write(root.join("a.txt"), b"x")).unwrap();
    let passed = gate(&root).check("a.txt", probe).unwrap();
    assert_eq!(shown(&passed), root.join("a.txt").display().to_string());
}

#[test]
fn an_absolute_path_outside_the_root_is_refused() {
    let dir = tempfile::tempdir().unwrap();
    let root = dir.path().canonicalize().unwrap();
    let err = gate(&root).check("/etc/hosts", probe).err().unwrap();
    assert_eq!(err.code, ErrorCode::ForbiddenScope);
    assert!(err.message.contains(&root.display().to_string()), "{}", err.message);
}

#[test]
fn a_refusal_says_why_and_what_is_allowed() {
    let gate = PathGate {
        roots: vec![b"/data".to_vec(), b"/srv".to_vec()],
        deny: vec![b"/data/secret".to_vec()],
    };
    let outside = gate.check("/etc/hosts", |path: &NodePath| Some(path.copy())).err().unwrap();
    assert_eq!(
        outside.message,
        "/etc/hosts: is outside the allowed roots. Paths this node allows: /data, /srv"
    );
    let denied = gate.check("secret/key", |path: &NodePath| Some(path.copy())).err().unwrap();
    assert_eq!(
        denied.message,
        "secret/key: is on the deny list. Paths this node allows: /data, /srv"
    );
}

#[test]
fn a_parent_traversal_out_of_the_root_is_refused() {
    let dir = tempfile::tempdir().unwrap();
    let root = dir.path().canonicalize().unwrap();
    assert!(gate(&root).check("../../etc/hosts", probe).is_err());
}

#[test]
fn a_symlink_pointing_out_of_the_root_is_refused() {
    let dir = tempfile::tempdir().unwrap();
    let root = dir.path().canonicalize().unwrap();
    on_disk(tokio::fs::symlink("/etc", root.join("escape"))).unwrap();
    assert!(gate(&root).check("escape/hosts", probe).is_err());
}

#[test]
fn a_path_that_does_not_exist_yet_still_passes() {
    let dir = tempfile::tempdir().unwrap();
    let root = dir.path().canonicalize().unwrap();
    let passed = gate(&root).check("new/deep/file.txt", probe).unwrap();
    assert_eq!(shown(&passed), root.join("new/deep/file.txt").display().to_string());
}

#[test]
fn deny_wins_over_roots() {
    let dir = tempfile::tempdir().unwrap();
    let root = dir.path().canonicalize().unwrap();
    on_disk(tokio::fs::create_dir(root.join("secret"))).unwrap();
    assert!(gate(&root).check("secret/key", probe).is_err());
    assert!(gate(&root).check("secret", probe).is_err());
}

#[test]
fn a_sibling_sharing_a_prefix_is_not_inside_the_root() {
    let dir = tempfile::tempdir().unwrap();
    let base = dir.path().canonicalize().unwrap();
    on_disk(tokio::fs::create_dir(base.join("root"))).unwrap();
    on_disk(tokio::fs::create_dir(base.join("root-evil"))).unwrap();
    let g = PathGate::new(vec![located(base.join("root"))], vec![]);
    assert!(g.check(&base.join("root-evil/x").display().to_string(), probe).is_err());
}

#[test]
fn a_gate_without_roots_starts_at_the_file_system_root() {
    let gate = PathGate::new(vec![], vec![]);
    assert_eq!(gate.root(), b"/".to_vec());
    assert!(gate.check("etc", |path: &NodePath| Some(path.copy())).is_err());
}

#[test]
fn a_location_counts_for_what_it_really_is() {
    let gate = PathGate::new(
        vec![Location { given: b"/link".to_vec(), canonical: Some(b"/real".to_vec()) }],
        vec![Location { given: b"/real/not-there".to_vec(), canonical: None }],
    );
    assert_eq!(gate.root(), b"/real".to_vec());
    assert!(gate.check("x", |path: &NodePath| Some(path.copy())).is_ok());
    assert!(gate.check("/link/x", |path: &NodePath| Some(path.copy())).is_err());
    assert!(gate.check("not-there/x", |path: &NodePath| Some(path.copy())).is_err());
}

#[test]
fn joining_agrees_with_the_layer_below() {
    let root = Path::new("/data/work");
    let parsed = NodePath::parse(b"/data/work");
    for requested in [
        "a.txt", "./a", "a/../b", "../x", "../../../x", "/etc/hosts", "/", "a//b/./c/", "..", "",
    ] {
        let below = zyris_caps::resolve_under(root, requested);
        assert_eq!(
            shown(&join_like_upstream(&parsed, requested)),
            below.display().to_string(),
            "{requested}"
        );
    }
}

#[test]
fn a_link_to_a_file_that_is_not_there_yet_cannot_escape() {
    let dir = tempfile::tempdir().unwrap();
    let base = dir.path().canonicalize().unwrap();
    let root = base.join("root");
    on_disk(async {
        tokio::fs::create_dir(&root).await.unwrap();
        tokio::fs::create_dir(base.join("outside")).await.unwrap();
        tokio::fs::symlink(base.join("outside/new"), root.join("far")).await.unwrap();
        tokio::fs::symlink("../outside/new", root.join("up")).await.unwrap();
        tokio::fs::symlink("up", root.join("twice")).await.unwrap();
        tokio::fs::symlink(base.join("outside"), root.join("door")).await.unwrap();
        tokio::fs::symlink("door/../new", root.join("back")).await.unwrap();
        tokio::fs::symlink("new", root.join("near")).await.unwrap();
    });
    for requested in ["far", "up", "twice", "back", "far/deeper", "up/deeper/still"] {
        let err = gate(&root).check(requested, probe).err().unwrap();
        assert_eq!(err.code, ErrorCode::ForbiddenScope, "{requested}");
    }
    let passed = gate(&root).check("near", probe).unwrap();
    assert_eq!(shown(&passed), root.join("new").display().to_string());
}

#[test]
fn a_link_is_taken_for_what_it_points_to() {
    let linked = |path: &NodePath| match shown(path).as_str() {
        "/" | "/data" | "/etc" => Some(path.copy()),
        "/data/link" => Some(NodePath::parse(b"/etc/new")),
        _ => None,
    };
    let found = canonicalize_deepest(&NodePath::parse(b"/data/link"), linked);
    assert_eq!(shown(&found), "/etc/new");
    let found = canonicalize_deepest(&NodePath::parse(b"/data/link/x"), linked);
    assert_eq!(shown(&found), "/etc/new/x");
    let gate = PathGate { roots: vec![b"/data".to_vec()], deny: vec![] };
    assert!(gate.check("link", linked).is_err());
    assert!(gate.check("new", linked).is_ok());
}

#[test]
fn a_links_dots_lead_up_from_where_its_names_lead() {
    let doors = |path: &NodePath| match shown(path).as_str() {
        "/data/door" => Some(NodePath::parse(b"/srv/deep")),
        _ => None,
    };
    let follow = |target: &[u8]| {
        shown(&follow_link(&NodePath::parse(b"/data"), &NodePath::parse(target), doors))
    };
    assert_eq!(follow(b"door/../new"), "/srv/new");
    assert_eq!(follow(b"./other/../new"), "/data/new");
    assert_eq!(follow(b"/etc/new"), "/etc/new");
}
