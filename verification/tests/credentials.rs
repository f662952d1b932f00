use zyris_docker::env::{Env, EnvValue, EnvVar};
use zyris_docker::runtime::credentials::{
    token_prefix, validate_credential, CredentialRead, CredentialsError, StaticToken, TokenFile,
};

fn env(vars: &[(&str, &str)]) -> Env {
    Env {
        vars: vars
            .iter()
            .map(|(name, value)| EnvVar {
                name: name.to_string(),
                value: EnvValue::Text(value.to_string()),
            })
            .collect(),
    }
}

#[test]
fn a_static_credential_is_returned_verbatim_and_never_logged_whole() {
    let creds = StaticToken::new("zc_abcdefghijklmnop".to_string());
    assert_eq!(creds.bearer(), "zc_abcdefghijklmnop");
    assert!(!creds.describe().contains("ijklmnop"), "{}", creds.describe());
    assert!(
        !creds.forget_refused(),
        "a mounted credential is the operator's to replace, not this node's to forget"
    );
    assert_eq!(creds.describe(), "a static credential (zc_abcdefghi…)");
}

#[test]
fn a_key_or_an_old_node_token_is_named_rather_than_left_to_401() {
    for wrong in ["atk_looks_about_right", "znt_from_before_credentials"] {
        let error = validate_credential(wrong, "ZYRIS_CREDENTIAL").unwrap_err();
        assert!(matches!(error, CredentialsError::Fatal(_)), "{wrong}");
        assert!(error.message().contains("zc_"), "{}", error.message());
    }
    assert!(validate_credential("zc_fine", "x").is_ok());
}

#[test]
fn a_wrong_kind_is_told_what_to_do() {
    let error = validate_credential("atk_x", "ZYRIS_CREDENTIAL").unwrap_err();
    assert_eq!(
        error.message(),
        "ZYRIS_CREDENTIAL does not look like a credential (expected a `zc_` prefix). API keys (`atk_`) and node tokens (`znt_`) will not work here; issue a credential under Settings → Zyris in Attacca."
    );
    let error = validate_credential(" \n", "the file").unwrap_err();
    assert!(matches!(&error, CredentialsError::NeedsOperator(m) if m == "the file is empty"));
    assert_eq!(validate_credential("\u{2003}zc_a b\n", "x").unwrap(), "zc_a b");
}

#[test]
fn twelve_bytes_of_a_token_are_shown() {
    assert_eq!(token_prefix("zc_abcdefghijk"), "zc_abcdefghi");
    assert_eq!(token_prefix("zc_a"), "zc_a");
    assert_eq!(token_prefix("zc_äöü_rest"), "zc_äöü_re");
}

#[test]
fn a_credential_in_the_environment_is_checked() {
    let held = StaticToken::from_env(&env(&[("ZYRIS_CREDENTIAL", " zc_env ")])).unwrap().unwrap();
    assert_eq!(held.bearer(), "zc_env");
    assert_eq!(held.describe(), "$ZYRIS_CREDENTIAL (zc_env…)");
    assert!(StaticToken::from_env(&env(&[("ZYRIS_CREDENTIAL", "  ")])).unwrap().is_none());
    assert!(StaticToken::from_env(&env(&[])).unwrap().is_none());
    let error = StaticToken::from_env(&env(&[("ZYRIS_CREDENTIAL", "atk_x")])).err().unwrap();
    assert!(matches!(error, CredentialsError::Fatal(_)));
}

#[test]
fn a_credential_file_is_read_fresh_every_time_so_replacing_it_needs_no_restart() {
    let creds = TokenFile::at(b"/run/credential".to_vec());
    assert!(matches!(
        creds.bearer(CredentialRead::Missing),
        Err(CredentialsError::Unavailable(_))
    ));
    assert_eq!(
        creds.bearer(CredentialRead::Contents("zc_first\n".to_string())).unwrap(),
        "zc_first",
        "trailing newline is trimmed"
    );
    assert_eq!(
        creds.bearer(CredentialRead::Contents("zc_replaced".to_string())).unwrap(),
        "zc_replaced"
    );
}

#[test]
fn a_credential_file_holding_an_api_key_says_so() {
    let creds = TokenFile::at(b"/run/credential".to_vec());
    let error = creds.bearer(CredentialRead::Contents("atk_wrong_kind".to_string())).unwrap_err();
    assert!(matches!(error, CredentialsError::Fatal(_)), "{}", error.message());
    assert!(error.message().starts_with("the credential in /run/credential does not look"));
}

#[test]
fn a_file_that_cannot_be_read_is_told_apart() {
    let creds = TokenFile::from_env(&env(&[("ZYRIS_CREDENTIAL_FILE", "/run/c")])).unwrap();
    assert_eq!(creds.describe(), "/run/c");
    assert!(!creds.forget_refused());
    let missing = creds.bearer(CredentialRead::Missing).unwrap_err();
    assert!(matches!(&missing, CredentialsError::Unavailable(m) if m == "/run/c does not exist yet"));
    let denied = creds.bearer(CredentialRead::Forbidden("EACCES".to_string())).unwrap_err();
    assert!(
        matches!(&denied, CredentialsError::NeedsOperator(m) if m == "cannot read /run/c: EACCES")
    );
    let failed = creds.bearer(CredentialRead::Failed("EIO".to_string())).unwrap_err();
    assert!(matches!(&failed, CredentialsError::Unavailable(m) if m == "cannot read /run/c: EIO"));
    let aborted = creds.bearer(CredentialRead::Aborted("cancelled".to_string())).unwrap_err();
    assert!(matches!(&aborted, CredentialsError::Unavailable(m) if m == "cancelled"));
    assert!(TokenFile::from_env(&env(&[("ZYRIS_CREDENTIAL_FILE", "")])).is_none());
    assert!(TokenFile::from_env(&env(&[])).is_none());
    let odd = TokenFile::at(b"/run/\xff".to_vec());
    assert_eq!(odd.describe(), "/run/\u{fffd}");
}
