use zyris_docker::env::{Env, EnvValue, EnvVar};
use zyris_docker::path::NodePath;
use zyris_docker::runtime::store::{
    credential_dir, file_name, slugify, Contents, CredentialStoreError, FileCredentialStore, Found,
    MemoryCredentialStore, Removal, SaveStep, StoreError, DEFAULT_CREDENTIAL_DIR,
};
use zyris_docker::runtime::stored::{
    read_credential, write_credential, AccountCredential, Credential, Named,
    ACCOUNT_CREDENTIAL_VERSION,
};

fn credential() -> AccountCredential {
    AccountCredential {
        version: ACCOUNT_CREDENTIAL_VERSION,
        access_token: "zna_access".into(),
        refresh_token: "znr_refresh".into(),
        node_id: "node-id".into(),
        node_name: "zyris-docker-node".into(),
        owner_email: "allen@example.com".into(),
        access_expires_at: 1_000_000,
    }
}

fn store(path: &str) -> FileCredentialStore {
    FileCredentialStore::at(path.as_bytes().to_vec())
}

fn present(mode: u32, parsed: Result<AccountCredential, String>) -> Found<AccountCredential> {
    Found::Present { mode, parsed }
}

fn dir_env(value: &str) -> Env {
    Env {
        vars: vec![EnvVar {
            name: "ZYRIS_CONFIG_DIR".to_string(),
            value: EnvValue::Text(value.to_string()),
        }],
    }
}

fn text(bytes: &[u8]) -> String {
    String::from_utf8(bytes.to_vec()).unwrap()
}

#[test]
fn memory_store_round_trips() {
    let mut store: MemoryCredentialStore<AccountCredential> = MemoryCredentialStore::new();
    assert_eq!(store.load(), None);
    store.save(&credential());
    assert_eq!(store.load().unwrap(), credential());
    store.clear();
    assert_eq!(store.load(), None);
    store.clear();
    assert_eq!(store.describe(), "memory (this credential is lost on restart)");
}

#[test]
fn only_unusable_may_be_thrown_away() {
    assert!(CredentialStoreError::Unusable("corrupt".into()).is_discardable());
    assert!(!CredentialStoreError::Refused("mode 0644".into()).is_discardable());
}

#[test]
fn the_credential_directory_is_not_inside_the_default_file_root() {
    let dir = NodePath::parse(DEFAULT_CREDENTIAL_DIR.as_bytes());
    assert!(
        dir.is_under(&NodePath::parse(b"/")),
        "a relative directory follows the working directory around"
    );
    assert!(
        !dir.is_under(&NodePath::parse(b"/data")),
        "the agent may read everything under the file roots"
    );
}

#[test]
fn the_credential_directory_is_the_given_one_exactly() {
    assert_eq!(text(&credential_dir(&dir_env("/cfg/here"))), "/cfg/here");
    assert_eq!(text(&credential_dir(&dir_env(""))), "/var/lib/zyris-docker");
    assert_eq!(text(&credential_dir(&Env { vars: vec![] })), "/var/lib/zyris-docker");
    let odd = Env {
        vars: vec![EnvVar {
            name: "ZYRIS_CONFIG_DIR".to_string(),
            value: EnvValue::Bytes(b"/\xff".to_vec()),
        }],
    };
    assert_eq!(credential_dir(&odd), b"/\xff".to_vec());
}

#[test]
fn a_file_that_is_private_and_current_loads() {
    let store = store("/cfg/creds.json");
    assert!(matches!(store.load(Found::<AccountCredential>::Missing), Ok(None)));
    let loaded = store.load(present(0o100600, Ok(credential()))).ok().unwrap();
    assert_eq!(loaded.unwrap(), credential());
}

#[test]
fn the_file_is_private_and_a_permissive_one_is_refused() {
    let store = store("/cfg/creds.json");
    let error = store.load(present(0o100644, Ok(credential()))).err().unwrap();
    assert!(matches!(error, StoreError::Permissive { mode: 0o644, .. }));
    let shaded = error.classify();
    assert!(matches!(shaded, CredentialStoreError::Refused(_)));
    assert!(!shaded.is_discardable());
    assert_eq!(
        shaded.message(),
        "credential file /cfg/creds.json is readable by other users (mode 0644); run: chmod 600 /cfg/creds.json"
    );
}

#[test]
fn a_file_from_the_future_is_refused_rather_than_guessed_at() {
    let mut future = credential();
    future.version = ACCOUNT_CREDENTIAL_VERSION + 1;
    let error = store("/cfg/creds.json").load(present(0o600, Ok(future))).err().unwrap();
    let shaded = error.classify();
    assert!(shaded.is_discardable(), "a file this build cannot read is re-enrollable");
    assert_eq!(shaded.message(), "credential file was written by a newer version (2, expected 1)");
}

#[test]
fn corrupt_json_is_discardable() {
    let error = store("/cfg/creds.json")
        .load(present(0o600, Err("key must be a string".to_string())))
        .err()
        .unwrap();
    assert!(matches!(error, StoreError::Corrupt(_)));
    assert!(error.classify().is_discardable());
    assert_eq!(error.message(), "credential file is corrupt: key must be a string");
    let error = store("/cfg/creds.json")
        .load(Found::<AccountCredential>::Unreadable("EIO".to_string()))
        .err()
        .unwrap();
    assert!(error.classify().is_discardable());
    assert_eq!(error.message(), "EIO");
}

#[test]
fn forgetting_nothing_is_success() {
    let store = store("/cfg/creds.json");
    assert!(store.clear(Removal::Removed).is_ok());
    assert!(store.clear(Removal::Missing).is_ok());
    let error = store.clear(Removal::Failed("EROFS".to_string())).err().unwrap();
    assert_eq!(error.message(), "EROFS");
}

#[test]
fn a_credential_is_written_beside_itself_and_renamed() {
    let steps: Vec<String> = store("/cfg/a/creds.json")
        .save_steps()
        .iter()
        .map(|step| match step {
            SaveStep::MakeDirectory { path } => format!("mkdir {}", text(path)),
            SaveStep::SetMode { path, mode } => format!("chmod {mode:o} {}", text(path)),
            SaveStep::Create { path } => format!("create {}", text(path)),
            SaveStep::WriteThrough { path } => format!("write {}", text(path)),
            SaveStep::Rename { from, to } => format!("rename {} {}", text(from), text(to)),
        })
        .collect();
    assert_eq!(
        steps,
        [
            "mkdir /cfg/a",
            "chmod 700 /cfg/a",
            "create /cfg/a/creds.tmp",
            "chmod 600 /cfg/a/creds.tmp",
            "write /cfg/a/creds.tmp",
            "rename /cfg/a/creds.tmp /cfg/a/creds.json",
        ]
    );
}

#[test]
fn the_temporary_name_agrees_with_the_standard_library() {
    for path in ["/a/b.json", "/a/.hidden", "/a/noext", "/a/two.dots.json", "b.json"] {
        let steps = store(path).save_steps();
        let Some(SaveStep::Rename { from, .. }) = steps.last() else { panic!("no rename") };
        let expected = std::path::Path::new(path).with_extension("tmp");
        assert_eq!(text(from), expected.display().to_string(), "{path}");
    }
}

#[test]
fn paths_are_per_deployment_and_per_profile() {
    let prod = file_name("wss://attacca.example/zyris/v1/ws", "default");
    let staging = file_name("wss://staging.attacca.example/zyris/v1/ws", "default");
    let other = file_name("wss://attacca.example/zyris/v1/ws", "builder");
    assert_ne!(prod, staging);
    assert_ne!(prod, other);

    let store = FileCredentialStore::at(format!("/cfg/{prod}").into_bytes());
    assert!(store.describe().starts_with("/cfg"));
    assert!(store.describe().ends_with(".json"));
}

#[test]
fn the_name_on_disk_is_the_one_an_enrolled_node_already_has() {
    assert_eq!(
        file_name("wss://attacca.cc/api/zyris/v1/ws", "default"),
        "wss-attacca-cc-api-zyris-v1-ws-default.json"
    );
}

#[test]
fn the_file_lies_in_the_credential_directory() {
    let store = FileCredentialStore::for_server(&dir_env("/cfg/"), "wss://A.b", "Prod");
    assert_eq!(store.describe(), "/cfg/wss-a-b-prod.json");
    let store = FileCredentialStore::for_server(&Env { vars: vec![] }, "", "");
    assert_eq!(store.describe(), "/var/lib/zyris-docker/default-default.json");
}

#[test]
fn slugify_is_filename_safe() {
    assert_eq!(slugify("wss://attacca.example/zyris/v1/ws"), "wss-attacca-example-zyris-v1-ws");
    assert_eq!(slugify("///"), "default");
    assert_eq!(slugify(""), "default");
    assert!(!slugify("a/../../etc/passwd").contains('/'));
}

#[test]
fn slugs_are_cut_and_bare() {
    assert_eq!(slugify("--A--b--"), "a-b");
    assert_eq!(slugify("é"), "default");
    assert_eq!(slugify(&"x".repeat(60)), "x".repeat(48));
    assert_eq!(slugify(&format!("{}/y", "x".repeat(47))), "x".repeat(47));
    let slug = slugify("wss://attacca.example/zyris/v1/ws?and=more&than=fits&in=here");
    assert_eq!(slug.len(), 48);
    assert_eq!(slugify(&slug), slug);
}

fn issued(version: u32) -> Credential {
    Credential {
        version,
        secret: "zc_\"quoted\"\n\u{7}é".into(),
        system: Named { id: "s1".into(), name: "Server A".into(), slug: "srv-a".into() },
        program: Named { id: "c1".into(), name: "zyris-docker".into(), slug: "zyris-docker".into() },
        scopes: vec!["fs".into(), "exec".into()],
        owner_email: "e@example.com".into(),
    }
}

#[test]
fn a_written_credential_reads_back() {
    let bytes = write_credential(&issued(2)).unwrap();
    assert_eq!(read_credential(&bytes).unwrap(), issued(2));
    assert_eq!(write_credential(&read_credential(&bytes).unwrap()).unwrap(), bytes);

    let store = store("/cfg/creds.json");
    let bytes = store.file_contents(&issued(2)).ok().unwrap();
    let loaded = store.load_file(Contents::Read { mode: 0o100600, bytes }).ok().unwrap();
    assert_eq!(loaded.unwrap(), issued(2));
}

#[test]
fn a_credential_is_written_as_indented_json() {
    let mut plain = issued(2);
    plain.secret = "zc_x".into();
    plain.scopes = vec![];
    assert_eq!(
        text(&write_credential(&plain).unwrap()),
        "{\n  \"version\": 2,\n  \"secret\": \"zc_x\",\n  \"system\": {\n    \"id\": \"s1\",\n    \"name\": \"Server A\",\n    \"slug\": \"srv-a\"\n  },\n  \"program\": {\n    \"id\": \"c1\",\n    \"name\": \"zyris-docker\",\n    \"slug\": \"zyris-docker\"\n  },\n  \"scopes\": [],\n  \"owner_email\": \"e@example.com\"\n}"
    );
}

#[test]
fn what_a_credential_file_holds_decides_what_it_loads_as() {
    let store = store("/cfg/creds.json");
    let read = |mode: u32, bytes: &[u8]| store.load_file(Contents::Read { mode, bytes: bytes.to_vec() });
    let bytes = write_credential(&issued(2)).unwrap();

    assert!(matches!(store.load_file(Contents::Missing), Ok(None)));
    let error = store.load_file(Contents::Unreadable("EIO".to_string())).err().unwrap();
    assert_eq!(error.message(), "EIO");
    let error = read(0o100640, &bytes).err().unwrap();
    assert!(matches!(error, StoreError::Permissive { mode: 0o640, .. }));
    let error = read(0o600, &write_credential(&issued(3)).unwrap()).err().unwrap();
    assert!(matches!(error, StoreError::UnknownVersion { found: 3, expected: 2 }));
    let error = read(0o600, b"{not json").err().unwrap();
    assert!(matches!(&error, StoreError::Corrupt(why) if why == "key must be a string at line 1 column 2"));
    let account = b"{\"version\":1,\"access_token\":\"zna_a\",\"refresh_token\":\"znr_r\"}";
    let error = read(0o600, account).err().unwrap();
    assert!(error.classify().is_discardable(), "an account credential is enrolled over");
    let no_email = b"{\"version\":2,\"secret\":\"zc_x\",\"system\":{\"id\":\"a\",\"name\":\"b\",\"slug\":\"c\"},\"program\":{\"id\":\"d\",\"name\":\"e\",\"slug\":\"f\"},\"scopes\":[\"fs\"]}";
    let loaded = read(0o600, no_email).ok().unwrap().unwrap();
    assert_eq!(
        loaded,
        Credential {
            version: 2,
            secret: "zc_x".into(),
            system: Named { id: "a".into(), name: "b".into(), slug: "c".into() },
            program: Named { id: "d".into(), name: "e".into(), slug: "f".into() },
            scopes: vec!["fs".into()],
            owner_email: "".into(),
        }
    );
}

#[test]
fn files_differ_where_the_joined_slugs_do() {
    let at = |url: &str, profile: &str| {
        text(&FileCredentialStore::for_server(&dir_env("/cfg"), url, profile).path)
    };
    assert_ne!(at("wss://a.example", "one"), at("wss://b.example", "two"));
    assert_ne!(at("wss://a.example", "one"), at("wss://a.example", "two"));
    assert_ne!(at("wss://a.example", "one"), at("wss://b.example", "one"));
    assert_eq!(at("a", "b-c"), at("a-b", "c"));
}
