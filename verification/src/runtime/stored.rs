//! What is kept between runs: the two kinds of credential that a node may hold.

use vstd::prelude::*;

verus! {

/// Something that is kept between runs, stamped with the version of its format.
pub trait Stored: DeepView + Sized {
    /// The version that this value is stamped with.
    spec fn stamp(&self) -> u32;

    /// The version that this build understands.
    spec fn understood() -> u32;

    /// The version that this value is stamped with.
    fn version(&self) -> (version: u32)
        ensures
            version == self.stamp(),
    ;

    /// The version that this build understands.
    fn expected() -> (version: u32)
        ensures
            version == Self::understood(),
    ;

    /// The same value once more.
    fn copy(&self) -> (out: Self)
        ensures
            out.deep_view() == self.deep_view(),
            out.stamp() == self.stamp(),
    ;
}

/// The version of an account credential's format.
pub const ACCOUNT_CREDENTIAL_VERSION: u32 = 1;

/// The version of a credential's format.
pub const CREDENTIAL_VERSION: u32 = 2;

/// An access token that expires, and the refresh token that renews it.
#[derive(Debug, PartialEq, Eq)]
pub struct AccountCredential {
    pub version: u32,
    pub access_token: String,
    pub refresh_token: String,
    pub node_id: String,
    pub node_name: String,
    pub owner_email: String,
    pub access_expires_at: u64,
}

/// What an [`AccountCredential`] says.
#[verifier::ext_equal]
pub struct AccountCredentialView {
    pub version: u32,
    pub access_token: Seq<char>,
    pub refresh_token: Seq<char>,
    pub node_id: Seq<char>,
    pub node_name: Seq<char>,
    pub owner_email: Seq<char>,
    pub access_expires_at: u64,
}

impl DeepView for AccountCredential {
    type V = AccountCredentialView;

    open spec fn deep_view(&self) -> AccountCredentialView {
        AccountCredentialView {
            version: self.version,
            access_token: self.access_token@,
            refresh_token: self.refresh_token@,
            node_id: self.node_id@,
            node_name: self.node_name@,
            owner_email: self.owner_email@,
            access_expires_at: self.access_expires_at,
        }
    }
}

impl Stored for AccountCredential {
    open spec fn stamp(&self) -> u32 {
        self.version
    }

    open spec fn understood() -> u32 {
        ACCOUNT_CREDENTIAL_VERSION
    }

    fn version(&self) -> (version: u32) {
        self.version
    }

    fn expected() -> (version: u32) {
        ACCOUNT_CREDENTIAL_VERSION
    }

    fn copy(&self) -> (out: AccountCredential) {
        AccountCredential {
            version: self.version,
            access_token: self.access_token.clone(),
            refresh_token: self.refresh_token.clone(),
            node_id: self.node_id.clone(),
            node_name: self.node_name.clone(),
            owner_email: self.owner_email.clone(),
            access_expires_at: self.access_expires_at,
        }
    }
}

/// A system or a program as the account names it.
#[derive(Debug, PartialEq, Eq)]
pub struct Named {
    pub id: String,
    pub name: String,
    pub slug: String,
}

/// What a [`Named`] says.
#[verifier::ext_equal]
pub struct NamedView {
    pub id: Seq<char>,
    pub name: Seq<char>,
    pub slug: Seq<char>,
}

impl DeepView for Named {
    type V = NamedView;

    open spec fn deep_view(&self) -> NamedView {
        NamedView { id: self.id@, name: self.name@, slug: self.slug@ }
    }
}

impl Named {
    /// The same value once more.
    pub fn copy(&self) -> (out: Named)
        ensures
            out.deep_view() == self.deep_view(),
    {
        Named { id: self.id.clone(), name: self.name.clone(), slug: self.slug.clone() }
    }
}

/// A credential that never expires and never rotates.
#[derive(Debug, PartialEq, Eq)]
pub struct Credential {
    pub version: u32,
    /// What is presented at every dial.
    pub secret: String,
    /// The machine, as the approving person picked or created it.
    pub system: Named,
    /// The program this credential was issued to.
    pub program: Named,
    /// What a node that presents it may do.
    pub scopes: Vec<String>,
    /// The account it was issued under.
    pub owner_email: String,
}

/// What a [`Credential`] says.
#[verifier::ext_equal]
pub struct CredentialView {
    pub version: u32,
    pub secret: Seq<char>,
    pub system: NamedView,
    pub program: NamedView,
    pub scopes: Seq<Seq<char>>,
    pub owner_email: Seq<char>,
}

impl DeepView for Credential {
    type V = CredentialView;

    open spec fn deep_view(&self) -> CredentialView {
        CredentialView {
            version: self.version,
            secret: self.secret@,
            system: self.system.deep_view(),
            program: self.program.deep_view(),
            scopes: self.scopes.deep_view(),
            owner_email: self.owner_email@,
        }
    }
}

/// The same texts once more.
pub fn copy_texts(texts: &Vec<String>) -> (out: Vec<String>)
    ensures
        out.deep_view() == texts.deep_view(),
{
    let mut out: Vec<String> = Vec::new();
    let mut i: usize = 0;
    while i < texts.len()
        invariant
            i <= texts@.len(),
            out@.len() == i,
            forall|k: int| 0 <= k < i ==> (#[trigger] out@[k])@ == texts@[k]@,
        decreases texts@.len() - i,
    {
        out.push(texts[i].clone());
        i += 1;
    }
    assert(out.deep_view() =~= texts.deep_view());
    out
}

impl Stored for Credential {
    open spec fn stamp(&self) -> u32 {
        self.version
    }

    open spec fn understood() -> u32 {
        CREDENTIAL_VERSION
    }

    fn version(&self) -> (version: u32) {
        self.version
    }

    fn expected() -> (version: u32) {
        CREDENTIAL_VERSION
    }

    fn copy(&self) -> (out: Credential) {
        Credential {
            version: self.version,
            secret: self.secret.clone(),
            system: self.system.copy(),
            program: self.program.copy(),
            scopes: copy_texts(&self.scopes),
            owner_email: self.owner_email.clone(),
        }
    }
}

// ---------------------------------------------------------------------------------------------
// The file format
// ---------------------------------------------------------------------------------------------

/// What a row of bytes is as a credential, or what is wrong with it.
pub uninterp spec fn parsed_credential(bytes: Seq<u8>) -> Result<CredentialView, Seq<char>>;

/// The bytes that a credential is written as, or why it cannot be written.
pub uninterp spec fn written_credential(credential: CredentialView) -> Result<Seq<u8>, Seq<char>>;

/// `serde_json::from_slice` into a `zyris::Credential`, taken over field by field: what comes out,
/// the wording of an error included, depends on the bytes alone. Which bytes are a credential is
/// stated only of those that [`write_credential`] writes.
#[verifier::external_body]
fn parse_credential(bytes: &Vec<u8>) -> (out: Result<Credential, String>)
    ensures
        out is Ok == parsed_credential(bytes@) is Ok,
        out matches Ok(credential) ==> credential.deep_view() == parsed_credential(bytes@)->Ok_0,
        out matches Err(error) ==> error@ == parsed_credential(bytes@)->Err_0,
{
    match serde_json::from_slice::<zyris::Credential>(bytes) {
        Ok(c) => Ok(Credential {
            version: c.version,
            secret: c.secret,
            system: Named { id: c.system.id, name: c.system.name, slug: c.system.slug },
            program: Named { id: c.program.id, name: c.program.name, slug: c.program.slug },
            scopes: c.scopes,
            owner_email: c.owner_email,
        }),
        Err(error) => Err(error.to_string()),
    }
}

/// `serde_json::to_vec_pretty` of a `zyris::Credential`, filled field by field: what comes out
/// depends on the credential alone, and `serde_json::from_slice` reads it back as the same
/// credential.
#[verifier::external_body]
fn format_credential(credential: Credential) -> (out: Result<Vec<u8>, String>)
    ensures
        out is Ok == written_credential(credential.deep_view()) is Ok,
        out matches Ok(bytes) ==> bytes@ == written_credential(credential.deep_view())->Ok_0,
        out matches Err(error) ==> error@ == written_credential(credential.deep_view())->Err_0,
        out matches Ok(bytes) ==> parsed_credential(bytes@) is Ok,
        out matches Ok(bytes) ==> parsed_credential(bytes@)->Ok_0 == credential.deep_view(),
{
    let Credential { version, secret, system, program, scopes, owner_email } = credential;
    let kept = zyris::Credential {
        version,
        secret,
        system: zyris::Named { id: system.id, name: system.name, slug: system.slug },
        program: zyris::Named { id: program.id, name: program.name, slug: program.slug },
        scopes,
        owner_email,
    };
    serde_json::to_vec_pretty(&kept).map_err(|error| error.to_string())
}

/// Reads a credential out of the bytes of its file.
pub fn read_credential(bytes: &Vec<u8>) -> (out: Result<Credential, String>)
    ensures
        out is Ok == parsed_credential(bytes@) is Ok,
        out matches Ok(credential) ==> credential.deep_view() == parsed_credential(bytes@)->Ok_0,
        out matches Err(error) ==> error@ == parsed_credential(bytes@)->Err_0,
{
    parse_credential(bytes)
}

/// Writes a credential as the bytes of its file, which read back as that credential.
pub fn write_credential(credential: &Credential) -> (out: Result<Vec<u8>, String>)
    ensures
        match written_credential(credential.deep_view()) {
            Ok(written) => out matches Ok(bytes) && bytes@ == written,
            Err(why) => out matches Err(error) && error@ == why,
        },
        out matches Ok(bytes) ==> parsed_credential(bytes@) == Ok::<CredentialView, Seq<char>>(
            credential.deep_view(),
        ),
{
    format_credential(credential.copy())
}

/// A credential is stamped with its own version, and this build understands version 1 of an account
/// credential and version 2 of a credential.
pub proof fn each_kind_has_its_version(account: AccountCredential, credential: Credential)
    ensures
        account.stamp() == account.version,
        AccountCredential::understood() == 1,
        credential.stamp() == credential.version,
        Credential::understood() == 2,
{
}

} // verus!
