//! How this node proves who it is: the simple answers.
//!
//! Something has to answer one question before every dial, *what bearer do I present?*, and there
//! are only a few real answers: a `zc_` credential from the environment, one from a mounted file,
//! or one the node enrolled for itself. The first two are here.

use vstd::prelude::*;
use vstd::string::*;
use vstd::utf8::*;

use crate::env::Env;
use crate::text;
use crate::text::{read_lossy, starts_with, trim};

verus! {

/// Why a bearer could not be produced, in the three shades the run loop reacts to differently.
#[derive(Debug)]
pub enum CredentialsError {
    /// A person has to do something: approve the node, set a variable, fix a permission. The
    /// process exits 2 rather than restart-looping.
    NeedsOperator(String),
    /// Wrong in a way retrying will not fix: a malformed credential. Exits 1.
    Fatal(String),
    /// The credential *source* could not be reached: a server that timed out, a secret on a mount
    /// that is not up yet. Retried with backoff.
    Unavailable(String),
}

/// What a [`CredentialsError`] says.
pub enum TroubleView {
    NeedsOperator(Seq<char>),
    Fatal(Seq<char>),
    Unavailable(Seq<char>),
}

impl View for CredentialsError {
    type V = TroubleView;

    open spec fn view(&self) -> TroubleView {
        match self {
            CredentialsError::NeedsOperator(message) => TroubleView::NeedsOperator(message@),
            CredentialsError::Fatal(message) => TroubleView::Fatal(message@),
            CredentialsError::Unavailable(message) => TroubleView::Unavailable(message@),
        }
    }
}

/// The message that a trouble carries.
pub open spec fn message_of(trouble: TroubleView) -> Seq<char> {
    match trouble {
        TroubleView::NeedsOperator(message) => message,
        TroubleView::Fatal(message) => message,
        TroubleView::Unavailable(message) => message,
    }
}

impl CredentialsError {
    /// The message, which is all there is to show of it.
    pub fn message(&self) -> (out: String)
        ensures
            out@ == message_of(self@),
    {
        match self {
            CredentialsError::NeedsOperator(message) => message.clone(),
            CredentialsError::Fatal(message) => message.clone(),
            CredentialsError::Unavailable(message) => message.clone(),
        }
    }
}

/// What came of asking for a bearer.
pub open spec fn bearer_view(out: Result<String, CredentialsError>) -> Result<
    Seq<char>,
    TroubleView,
> {
    match out {
        Ok(bearer) => Ok(bearer@),
        Err(error) => Err(error@),
    }
}

// ---------------------------------------------------------------------------------------------
// What of a credential may be shown
// ---------------------------------------------------------------------------------------------

/// What a credential starts with.
pub const CREDENTIAL_PREFIX: &'static str = "zc_";

/// How many bytes of a credential are safe to log.
pub const TOKEN_DISPLAY_PREFIX: usize = 12;

/// How many bytes of a credential are shown.
pub open spec fn shown_len(token: Seq<char>) -> int {
    if encode_utf8(token).len() < 12 {
        encode_utf8(token).len() as int
    } else {
        12
    }
}

/// Whether what is shown of a credential ends between two characters.
pub open spec fn can_be_shown(token: Seq<char>) -> bool {
    is_char_boundary(encode_utf8(token), shown_len(token))
}

/// What is shown of a credential.
pub open spec fn shown(token: Seq<char>) -> Seq<char> {
    decode_utf8(encode_utf8(token).take(shown_len(token)))
}

/// The leading, non-secret part of a credential.
pub fn token_prefix(token: &str) -> (out: &str)
    requires
        can_be_shown(token@),
    ensures
        out@ == shown(token@),
{
    let bytes = token.as_bytes();
    let end: usize = if bytes.len() < TOKEN_DISPLAY_PREFIX {
        bytes.len()
    } else {
        TOKEN_DISPLAY_PREFIX
    };
    let (head, _) = token.split_at(end);
    proof {
        encode_utf8_decode_utf8(head@);
        assert(head.spec_bytes() == encode_utf8(token@).take(end as int));
    }
    head
}

/// A credential of more than twelve bytes is never shown whole.
pub proof fn a_long_token_is_never_shown_whole(token: Seq<char>)
    requires
        can_be_shown(token),
        encode_utf8(token).len() > 12,
    ensures
        shown(token) != token,
        text::begins_with(token, shown(token)),
{
    encode_utf8_valid_utf8(token);
    encode_utf8_decode_utf8(token);
    let bytes = encode_utf8(token);
    valid_utf8_split(bytes, 12);
    decode_utf8_split(bytes, 12);
    assert(bytes.subrange(0, 12) == bytes.take(12));
    decode_utf8_encode_utf8(bytes.take(12));
    let rest = decode_utf8(bytes.subrange(12, bytes.len() as int));
    assert(token == shown(token) + rest);
    assert((shown(token) + rest).take(shown(token).len() as int) == shown(token));
    assert(encode_utf8(shown(token)).len() == 12);
}

/// Of a credential in ASCII the first twelve characters are shown.
pub proof fn an_ascii_token_shows_its_first_twelve(token: Seq<char>)
    requires
        is_ascii_chars(token),
    ensures
        can_be_shown(token),
        shown(token) == token.take(
            if token.len() < 12 {
                token.len() as int
            } else {
                12
            },
        ),
{
    is_ascii_chars_encode_utf8(token);
    encode_utf8_valid_utf8(token);
    let bytes = encode_utf8(token);
    let end = shown_len(token);
    let head = token.take(end);
    is_char_boundary_start_end_of_seq(bytes);
    if end < bytes.len() {
        is_char_boundary_iff_not_is_continuation_byte(bytes, end);
        assert(bytes[end] == token[end] as u8);
        let b = bytes[end];
        assert(b < 0x80);
        utf8_byte_ranges_bitwise(b);
    }
    assert(is_ascii_chars(head));
    is_ascii_chars_encode_utf8(head);
    assert(encode_utf8(head) =~= bytes.take(end)) by {
        assert forall|i: int| 0 <= i < end implies encode_utf8(head)[i] == bytes.take(end)[i] by {
            assert(head[i] == token[i]);
            assert(head[i] as u8 == encode_utf8(head)[i]);
            assert(token[i] as u8 == bytes[i]);
        }
    }
    encode_utf8_decode_utf8(head);
}

// ---------------------------------------------------------------------------------------------
// What counts as a credential
// ---------------------------------------------------------------------------------------------

/// What is said of something that is no credential.
pub open spec fn wrong_kind(source: Seq<char>) -> Seq<char> {
    source
        + " does not look like a credential (expected a `zc_` prefix). API keys (`atk_`) and node tokens (`znt_`) will not work here; issue a credential under Settings → Zyris in Attacca."@
}

/// What a secret is as a credential: trimmed, not empty, and with the right prefix.
pub open spec fn validated(secret: Seq<char>, source: Seq<char>) -> Result<Seq<char>, TroubleView> {
    let secret = text::trimmed(secret);
    if secret.len() == 0 {
        Err(TroubleView::NeedsOperator(source + " is empty"@))
    } else if !text::begins_with(secret, CREDENTIAL_PREFIX@) {
        Err(TroubleView::Fatal(wrong_kind(source)))
    } else {
        Ok(secret)
    }
}

/// Reject anything that is not a credential, by prefix.
///
/// It catches the two mistakes most likely to be made: an `atk_` API key from the same dashboard,
/// and a `znt_` node token kept from before credentials existed.
pub fn validate_credential(secret: &str, source: &str) -> (out: Result<String, CredentialsError>)
    ensures
        bearer_view(out) == validated(secret@, source@),
{
    let secret = trim(secret);
    if secret.as_str().is_empty() {
        let mut message = source.to_owned();
        message.append(" is empty");
        return Err(CredentialsError::NeedsOperator(message));
    }
    if !starts_with(secret.as_str(), CREDENTIAL_PREFIX) {
        let mut message = source.to_owned();
        message.append(
            " does not look like a credential (expected a `zc_` prefix). API keys (`atk_`) and node tokens (`znt_`) will not work here; issue a credential under Settings → Zyris in Attacca.",
        );
        return Err(CredentialsError::Fatal(message));
    }
    Ok(secret)
}

/// What passes as a credential has the prefix and no white space around it, and passes again
/// unchanged.
pub proof fn what_passes_is_a_trimmed_credential(secret: Seq<char>, source: Seq<char>)
    requires
        validated(secret, source) is Ok,
    ensures
        text::begins_with(validated(secret, source)->Ok_0, CREDENTIAL_PREFIX@),
        text::trimmed(validated(secret, source)->Ok_0) == validated(secret, source)->Ok_0,
        validated(validated(secret, source)->Ok_0, source) == validated(secret, source),
{
    text::trimming_is_idempotent(secret);
}

// ---------------------------------------------------------------------------------------------
// A credential from the environment
// ---------------------------------------------------------------------------------------------

/// A credential held in memory for the life of the process.
pub struct StaticToken {
    pub token: String,
    pub source: String,
}

impl StaticToken {
    /// Trusts the caller: no prefix check.
    pub fn new(token: String) -> (out: StaticToken)
        ensures
            out.token == token,
            out.source@ == "a static credential"@,
    {
        StaticToken { token, source: "a static credential".to_owned() }
    }

    /// Read `$ZYRIS_CREDENTIAL`, checking that it is actually a credential.
    pub fn from_env(env: &Env) -> (out: Result<Option<StaticToken>, CredentialsError>)
        ensures
            match env.filled_text("ZYRIS_CREDENTIAL"@) {
                None => out matches Ok(None),
                Some(raw) => match validated(raw, "ZYRIS_CREDENTIAL"@) {
                    Ok(token) => {
                        &&& out matches Ok(Some(held))
                        &&& held.token@ == token
                        &&& held.source@ == "$ZYRIS_CREDENTIAL"@
                    },
                    Err(trouble) => out matches Err(error) && error@ == trouble,
                },
            },
    {
        let raw = match env.env_str("ZYRIS_CREDENTIAL") {
            Some(raw) => raw,
            None => {
                return Ok(None);
            },
        };
        match validate_credential(raw.as_str(), "ZYRIS_CREDENTIAL") {
            Ok(token) => Ok(
                Some(StaticToken { token, source: "$ZYRIS_CREDENTIAL".to_owned() }),
            ),
            Err(error) => Err(error),
        }
    }

    /// The bearer to present: always the same.
    pub fn bearer(&self) -> (out: String)
        ensures
            out@ == self.token@,
    {
        self.token.clone()
    }

    /// Whether another dial is worth attempting after a refusal. Never: a credential an operator
    /// mounted is theirs to replace.
    pub fn forget_refused(&self) -> (again: bool)
        ensures
            !again,
    {
        false
    }

    /// Where the credential comes from and its leading part, never the whole secret.
    pub fn describe(&self) -> (out: String)
        requires
            can_be_shown(self.token@),
        ensures
            out@ == self.source@ + " ("@ + shown(self.token@) + "…)"@,
    {
        let mut out = self.source.clone();
        out.append(" (");
        out.append(token_prefix(self.token.as_str()));
        out.append("…)");
        out
    }
}

// ---------------------------------------------------------------------------------------------
// A credential from a file
// ---------------------------------------------------------------------------------------------

/// What came of reading a credential file.
pub enum CredentialRead {
    /// The file was read.
    Contents(String),
    /// There is no such file.
    Missing,
    /// The file may not be read, and what the system said.
    Forbidden(String),
    /// The file could not be read for another reason, and what the system said.
    Failed(String),
    /// The attempt itself broke off, and why.
    Aborted(String),
}

/// A credential read from a file, fresh on every dial.
///
/// This is the shape that mounted secrets have. Reading it anew rather than keeping it means that
/// a replaced secret is picked up on the next reconnect with no restart.
pub struct TokenFile {
    pub path: Vec<u8>,
}

impl TokenFile {
    /// The path as it is shown.
    pub open spec fn shown_path(&self) -> Seq<char> {
        text::lossy_text(self.path@)
    }

    /// What a reading of the file means.
    pub open spec fn read_as(&self, read: CredentialRead) -> Result<Seq<char>, TroubleView> {
        match read {
            CredentialRead::Contents(contents) => validated(
                contents@,
                "the credential in "@ + self.shown_path(),
            ),
            // A mount that is not up yet is the common case at start, and it resolves itself.
            CredentialRead::Missing => Err(
                TroubleView::Unavailable(self.shown_path() + " does not exist yet"@),
            ),
            CredentialRead::Forbidden(why) => Err(
                TroubleView::NeedsOperator("cannot read "@ + self.shown_path() + ": "@ + why@),
            ),
            CredentialRead::Failed(why) => Err(
                TroubleView::Unavailable("cannot read "@ + self.shown_path() + ": "@ + why@),
            ),
            CredentialRead::Aborted(why) => Err(TroubleView::Unavailable(why@)),
        }
    }

    pub fn at(path: Vec<u8>) -> (out: TokenFile)
        ensures
            out.path == path,
    {
        TokenFile { path }
    }

    /// Read `$ZYRIS_CREDENTIAL_FILE`.
    pub fn from_env(env: &Env) -> (out: Option<TokenFile>)
        ensures
            match env.bytes("ZYRIS_CREDENTIAL_FILE"@) {
                Some(path) => if path.len() > 0 {
                    out matches Some(file) && file.path@ == path
                } else {
                    out is None
                },
                None => out is None,
            },
    {
        match env.var_os("ZYRIS_CREDENTIAL_FILE") {
            Some(path) => {
                assert(path.deep_view() == path@);
                if path.len() > 0 {
                    Some(TokenFile::at(path))
                } else {
                    None
                }
            },
            None => None,
        }
    }

    fn cannot_read(&self, why: &str) -> (out: String)
        ensures
            out@ == "cannot read "@ + self.shown_path() + ": "@ + why@,
    {
        let mut message = "cannot read ".to_owned();
        let path = self.describe();
        message.append(path.as_str());
        message.append(": ");
        message.append(why);
        message
    }

    /// The bearer to present, given what a fresh reading of the file came to.
    pub fn bearer(&self, read: CredentialRead) -> (out: Result<String, CredentialsError>)
        ensures
            bearer_view(out) == self.read_as(read),
    {
        match read {
            CredentialRead::Contents(contents) => {
                let mut source = "the credential in ".to_owned();
                let path = self.describe();
                source.append(path.as_str());
                validate_credential(contents.as_str(), source.as_str())
            },
            CredentialRead::Missing => {
                let mut message = self.describe();
                message.append(" does not exist yet");
                Err(CredentialsError::Unavailable(message))
            },
            CredentialRead::Forbidden(why) => Err(
                CredentialsError::NeedsOperator(self.cannot_read(why.as_str())),
            ),
            CredentialRead::Failed(why) => Err(
                CredentialsError::Unavailable(self.cannot_read(why.as_str())),
            ),
            CredentialRead::Aborted(why) => Err(CredentialsError::Unavailable(why)),
        }
    }

    /// Whether another dial is worth attempting after a refusal. Never: a credential an operator
    /// mounted is theirs to replace.
    pub fn forget_refused(&self) -> (again: bool)
        ensures
            !again,
    {
        false
    }

    /// Where the credential comes from: the path.
    pub fn describe(&self) -> (out: String)
        ensures
            out@ == self.shown_path(),
    {
        read_lossy(&self.path)
    }
}

// ---------------------------------------------------------------------------------------------
// What a credential source keeps to
// ---------------------------------------------------------------------------------------------

/// What is given is a credential exactly where it begins with `zc_` once the white space around it
/// is gone, and that is then presented. One with nothing in it needs a person, and one of another
/// kind is beyond retrying.
pub proof fn only_a_credential_of_the_right_kind_passes(
    secret: Seq<char>,
    source: Seq<char>,
    bearer: Seq<char>,
)
    ensures
        validated(secret, source) == Ok::<Seq<char>, TroubleView>(bearer) <==> bearer
            == text::trimmed(secret) && exists|rest: Seq<char>| bearer == #[trigger] ("zc_"@ + rest),
        (validated(secret, source) is Err && validated(secret, source)->Err_0 is NeedsOperator)
            <==> forall|i: int| 0 <= i < secret.len() ==> text::is_white(#[trigger] secret[i]),
        validated(secret, source) is Err ==> !(validated(secret, source)->Err_0 is Unavailable),
        validated(secret, source) matches Err(TroubleView::NeedsOperator(said)) ==> said == source
            + " is empty"@,
        validated(secret, source) matches Err(TroubleView::Fatal(said)) ==> text::begins_with(
            said,
            source,
        ),
{
    reveal_strlit("zc_");
    text::trimming_takes_white_ends_only(secret);
    text::a_prefix_has_a_rest(text::trimmed(secret), "zc_"@);
    let said = wrong_kind(source);
    assert(said.take(source.len() as int) == source);
}

/// A credential file is presented as it is read. One that is not there yet, or cannot be read for
/// now, is waited for; only one that may not be read needs a person.
pub proof fn a_credential_file_is_waited_for(file: TokenFile, contents: String, why: String)
    ensures
        file.read_as(CredentialRead::Contents(contents)) == validated(
            contents@,
            "the credential in "@ + text::lossy_text(file.path@),
        ),
        file.read_as(CredentialRead::Missing) == Err::<Seq<char>, TroubleView>(
            TroubleView::Unavailable(text::lossy_text(file.path@) + " does not exist yet"@),
        ),
        file.read_as(CredentialRead::Failed(why)) == Err::<Seq<char>, TroubleView>(
            TroubleView::Unavailable(
                "cannot read "@ + text::lossy_text(file.path@) + ": "@ + why@,
            ),
        ),
        file.read_as(CredentialRead::Aborted(why)) == Err::<Seq<char>, TroubleView>(
            TroubleView::Unavailable(why@),
        ),
        file.read_as(CredentialRead::Forbidden(why)) == Err::<Seq<char>, TroubleView>(
            TroubleView::NeedsOperator(
                "cannot read "@ + text::lossy_text(file.path@) + ": "@ + why@,
            ),
        ),
{
}

/// What is said of a trouble is its message, whatever kind it is of.
pub proof fn a_trouble_says_its_message(message: Seq<char>)
    ensures
        message_of(TroubleView::NeedsOperator(message)) == message,
        message_of(TroubleView::Fatal(message)) == message,
        message_of(TroubleView::Unavailable(message)) == message,
{
}

/// What a source gives is shown as it is: its bearer, or its trouble.
pub proof fn a_bearer_is_shown_as_it_is(bearer: String, error: CredentialsError)
    ensures
        bearer_view(Ok(bearer)) == Ok::<Seq<char>, TroubleView>(bearer@),
        bearer_view(Err(error)) == Err::<Seq<char>, TroubleView>(error@),
{
}

} // verus!
