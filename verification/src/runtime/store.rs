//! Where this node keeps its credential between runs.
//!
//! The file backend keeps one file per deployment and profile. What can be decided without the
//! file system is decided here: the name of the file, which steps write it, what a file that was
//! found may be used for, and which failures may be answered by enrolling again.

use vstd::prelude::*;
use vstd::string::*;
use vstd::utf8::*;

use crate::env::Env;
use crate::numbers;
use crate::numbers::{write_decimal, write_number};
use crate::path;
use crate::path::{NodePath, Part, PartView, DOT};
use crate::runtime::stored;
use crate::runtime::stored::{
    read_credential, write_credential, Credential, CredentialView, Stored,
};
use crate::text;
use crate::text::{chars_of, read_lossy};

verus! {

// ---------------------------------------------------------------------------------------------
// Where
// ---------------------------------------------------------------------------------------------

/// Where the credential goes when nobody said otherwise.
///
/// Not under a home directory, which the user of this image does not have, and not under a file
/// root, which is what an agent may read.
pub const DEFAULT_CREDENTIAL_DIR: &'static str = "/var/lib/zyris-docker";

/// Where this node keeps its credential: a directory that a person gave is used exactly.
pub open spec fn directory(env: Env) -> Seq<u8> {
    match env.bytes("ZYRIS_CONFIG_DIR"@) {
        Some(given) => if given.len() > 0 {
            given
        } else {
            encode_utf8(DEFAULT_CREDENTIAL_DIR@)
        },
        None => encode_utf8(DEFAULT_CREDENTIAL_DIR@),
    }
}

/// The one answer to *where does this node keep its credential*: the store writes there, and the
/// path gate denies it.
pub fn credential_dir(env: &Env) -> (out: Vec<u8>)
    ensures
        out@ == directory(*env),
{
    match env.var_os("ZYRIS_CONFIG_DIR") {
        Some(given) => {
            assert(given.deep_view() == given@);
            if given.len() > 0 {
                given
            } else {
                DEFAULT_CREDENTIAL_DIR.as_bytes_vec()
            }
        },
        None => DEFAULT_CREDENTIAL_DIR.as_bytes_vec(),
    }
}

/// Whether a character is a letter or a digit in ASCII.
pub open spec fn is_plain(c: char) -> bool {
    ('a' <= c && c <= 'z') || ('A' <= c && c <= 'Z') || ('0' <= c && c <= '9')
}

/// A letter in lower case; any other character as it is.
pub open spec fn lowered(c: char) -> char {
    if 'A' <= c && c <= 'Z' {
        (c as u8 + 32) as char
    } else {
        c
    }
}

/// A text with its letters in lower case, its digits, and one dash for every run of anything else
/// that has something before it.
pub open spec fn dashed(s: Seq<char>) -> Seq<char>
    decreases s.len(),
{
    if s.len() == 0 {
        Seq::empty()
    } else {
        let before = dashed(s.drop_last());
        if is_plain(s.last()) {
            before.push(lowered(s.last()))
        } else if before.len() > 0 && before.last() != '-' {
            before.push('-')
        } else {
            before
        }
    }
}

/// How long a slug may be.
pub const SLUG_LEN: usize = 48;

/// The start of a text, as far as a slug reaches.
pub open spec fn cut(s: Seq<char>) -> Seq<char> {
    if s.len() > 48 {
        s.take(48)
    } else {
        s
    }
}

/// A URL or profile name as a component of a file name.
pub open spec fn slug(s: Seq<char>) -> Seq<char> {
    let short = cut(dashed(s));
    let bare = if short.len() > 0 && short.last() == '-' {
        short.drop_last()
    } else {
        short
    };
    if bare.len() == 0 {
        "default"@
    } else {
        bare
    }
}

/// Whether a character may stand in a slug.
pub open spec fn is_slug_char(c: char) -> bool {
    ('a' <= c && c <= 'z') || ('0' <= c && c <= '9') || c == '-'
}

/// Whether a text is safe as a component of a file name: not empty, not too long, of plain
/// characters and dashes, with no dash at either end and no two in a row.
pub open spec fn is_safe(s: Seq<char>) -> bool {
    &&& 0 < s.len() <= 48
    &&& forall|i: int| 0 <= i < s.len() ==> is_slug_char(#[trigger] s[i])
    &&& s[0] != '-'
    &&& s.last() != '-'
    &&& forall|i: int, j: int|
        0 <= i && j == i + 1 && j < s.len() ==> !(#[trigger] s[i] == '-' && #[trigger] s[j] == '-')
}

proof fn lemma_lowered(c: char)
    requires
        is_plain(c),
    ensures
        is_slug_char(lowered(c)),
        lowered(c) != '-',
{
}

proof fn lemma_dashed_is_regular(s: Seq<char>)
    ensures
        dashed(s).len() <= s.len(),
        dashed(s).len() > 0 ==> dashed(s)[0] != '-',
        forall|i: int| 0 <= i < dashed(s).len() ==> is_slug_char(#[trigger] dashed(s)[i]),
        forall|i: int, j: int|
            0 <= i && j == i + 1 && j < dashed(s).len() ==> !(#[trigger] dashed(s)[i] == '-'
                && #[trigger] dashed(s)[j] == '-'),
    decreases s.len(),
{
    if s.len() > 0 {
        lemma_dashed_is_regular(s.drop_last());
        if is_plain(s.last()) {
            lemma_lowered(s.last());
        }
    }
}

/// Every slug is safe as a component of a file name.
pub proof fn a_slug_is_filename_safe(s: Seq<char>)
    ensures
        is_safe(slug(s)),
{
    lemma_dashed_is_regular(s);
    reveal_strlit("default");
    let short = cut(dashed(s));
    assert forall|i: int| 0 <= i < short.len() implies #[trigger] short[i] == dashed(s)[i] by {}
    if short.len() == 1 {
        assert(short[0] != '-');
    }
}

proof fn lemma_safe_is_fixed(s: Seq<char>, k: int)
    requires
        is_safe(s),
        0 <= k <= s.len(),
    ensures
        dashed(s.take(k)) == s.take(k),
    decreases k,
{
    if k > 0 {
        lemma_safe_is_fixed(s, k - 1);
        let now = s.take(k);
        assert(now.drop_last() == s.take(k - 1));
        let c = s[k - 1];
        assert(is_slug_char(c));
        if c == '-' {
            assert(k >= 2);
            assert(s[k - 2] != '-');
            assert(s.take(k - 1).last() == s[k - 2]);
        }
        assert(s.take(k) == s.take(k - 1).push(c));
    }
}

/// A slug is its own slug.
pub proof fn a_slug_is_its_own_slug(s: Seq<char>)
    ensures
        slug(slug(s)) == slug(s),
{
    a_slug_is_filename_safe(s);
    let t = slug(s);
    lemma_safe_is_fixed(t, t.len() as int);
    assert(t.take(t.len() as int) == t);
}

fn lower(c: char) -> (out: char)
    ensures
        out == lowered(c),
{
    if 'A' <= c && c <= 'Z' {
        (c as u8 + 32) as char
    } else {
        c
    }
}

/// Reduce a URL or profile name to something safe as a filename component.
pub fn slugify(input: &str) -> (out: String)
    ensures
        out@ == slug(input@),
{
    let chars = chars_of(input);
    let mut out: Vec<char> = Vec::new();
    let mut i: usize = 0;
    assert(chars@.take(0) == Seq::<char>::empty());
    while i < chars.len() && out.len() < SLUG_LEN
        invariant
            i <= chars@.len(),
            out@ == dashed(chars@.take(i as int)),
            out@.len() <= 48,
        decreases chars@.len() - i,
    {
        let c = chars[i];
        assert(chars@.take(i + 1).drop_last() == chars@.take(i as int));
        if ('a' <= c && c <= 'z') || ('A' <= c && c <= 'Z') || ('0' <= c && c <= '9') {
            out.push(lower(c));
        } else if out.len() > 0 && out[out.len() - 1] != '-' {
            out.push('-');
        }
        i += 1;
    }
    proof {
        lemma_dashed_grows(chars@, i as int);
        assert(chars@.take(chars@.len() as int) == chars@);
        assert(out@ == cut(dashed(chars@)));
    }
    let end: usize = if out.len() > 0 && out[out.len() - 1] == '-' {
        out.len() - 1
    } else {
        out.len()
    };
    assert(end < out@.len() ==> out@.drop_last() == out@.subrange(0, end as int));
    assert(end == out@.len() ==> out@ == out@.subrange(0, end as int));
    if end == 0 {
        "default".to_owned()
    } else {
        text::text_of(&out, 0, end)
    }
}

proof fn lemma_dashed_grows(s: Seq<char>, k: int)
    requires
        0 <= k <= s.len(),
    ensures
        text::begins_with(dashed(s), dashed(s.take(k))),
    decreases s.len(),
{
    if k == s.len() {
        assert(s.take(k) == s);
        assert(dashed(s).take(dashed(s).len() as int) == dashed(s));
    } else {
        let less = s.drop_last();
        lemma_dashed_grows(less, k);
        assert(less.take(k) == s.take(k));
        let head = dashed(s.take(k));
        assert(dashed(s).take(head.len() as int) == dashed(less).take(head.len() as int));
    }
}

/// The file name for a deployment and profile.
pub open spec fn name_of(server_url: Seq<char>, profile: Seq<char>) -> Seq<char> {
    slug(server_url) + "-"@ + slug(profile) + ".json"@
}

/// The file name for a deployment and profile: `<server>-<profile>.json`.
pub fn file_name(server_url: &str, profile: &str) -> (out: String)
    ensures
        out@ == name_of(server_url@, profile@),
{
    let mut out = slugify(server_url);
    out.append("-");
    let profile = slugify(profile);
    out.append(profile.as_str());
    out.append(".json");
    out
}

/// What tells the file of one deployment and profile from that of another.
pub open spec fn stem_of(server_url: Seq<char>, profile: Seq<char>) -> Seq<char> {
    slug(server_url) + "-"@ + slug(profile)
}

/// Two deployments and profiles share a file exactly where their slugs, joined by a dash, are the
/// same text. So of one deployment, profiles with different slugs have different files, and of one
/// profile, deployments with different slugs have.
pub proof fn files_are_per_deployment_and_per_profile(
    env: Env,
    server_url: Seq<char>,
    profile: Seq<char>,
    other_url: Seq<char>,
    other_profile: Seq<char>,
)
    ensures
        (located(env, server_url, profile) == located(env, other_url, other_profile)) == (stem_of(
            server_url,
            profile,
        ) == stem_of(other_url, other_profile)),
        server_url == other_url && slug(profile) != slug(other_profile) ==> located(
            env,
            server_url,
            profile,
        ) != located(env, other_url, other_profile),
        profile == other_profile && slug(server_url) != slug(other_url) ==> located(
            env,
            server_url,
            profile,
        ) != located(env, other_url, other_profile),
{
    reveal_strlit("-");
    reveal_strlit(".json");
    let one = name_of(server_url, profile);
    let two = name_of(other_url, other_profile);
    assert(one.take(one.len() - 5) == stem_of(server_url, profile));
    assert(two.take(two.len() - 5) == stem_of(other_url, other_profile));
    let lead = path::with_segment(directory(env), Seq::empty());
    let n = lead.len() as int;
    assert(located(env, server_url, profile).skip(n) == encode_utf8(one));
    assert(located(env, other_url, other_profile).skip(n) == encode_utf8(two));
    encode_utf8_decode_utf8(one);
    encode_utf8_decode_utf8(two);
    let here = slug(server_url);
    let there = slug(other_url);
    if stem_of(server_url, profile) == stem_of(other_url, other_profile) {
        let stem = stem_of(server_url, profile);
        assert(stem.skip(here.len() + 1int) == slug(profile));
        assert(stem_of(other_url, other_profile).skip(there.len() + 1int) == slug(other_profile));
        assert(stem.take(stem.len() - slug(profile).len() - 1) == here);
        assert(stem_of(other_url, other_profile).take(
            stem.len() - slug(other_profile).len() - 1,
        ) == there);
    }
}

/// A credential kept in one file, private to the user running the node.
pub struct FileCredentialStore {
    pub path: Vec<u8>,
}

proof fn lemma_file_name_is_a_name(server_url: Seq<char>, profile: Seq<char>)
    ensures
        is_ascii_chars(name_of(server_url, profile)),
        path::is_name(encode_utf8(name_of(server_url, profile))),
{
    reveal_strlit("-");
    reveal_strlit(".json");
    a_slug_is_filename_safe(server_url);
    a_slug_is_filename_safe(profile);
    let name = name_of(server_url, profile);
    let a = slug(server_url);
    let b = slug(profile);
    assert forall|i: int| 0 <= i < name.len() implies '\0' <= #[trigger] name[i] <= '\u{7f}'
        && name[i] != '/' by {
        if i < a.len() {
            assert(name[i] == a[i]);
            assert(is_slug_char(a[i]));
        } else if i == a.len() {
            assert(name[i] == "-"@[0]);
        } else if i < a.len() + 1 + b.len() {
            assert(name[i] == b[i - a.len() - 1]);
            assert(is_slug_char(b[i - a.len() - 1]));
        } else {
            assert(name[i] == ".json"@[i - a.len() - 1 - b.len()]);
        }
    }
    is_ascii_chars_encode_utf8(name);
    let bytes = encode_utf8(name);
    assert(bytes.len() > 2);
    assert forall|i: int| 0 <= i < bytes.len() implies bytes[i] != path::SLASH by {
        assert(name[i] as u8 == bytes[i]);
    }
}

impl FileCredentialStore {
    /// The conventional location for a given deployment URL and profile.
    ///
    /// One file per deployment and profile, so two nodes started against different servers cannot
    /// clobber each other, and no locking is needed to make that true.
    pub fn for_server(env: &Env, server_url: &str, profile: &str) -> (out: FileCredentialStore)
        ensures
            out.path@ == located(*env, server_url@, profile@),
    {
        let mut path = credential_dir(env);
        let ghost dir = path@;
        let name = file_name(server_url, profile);
        if path.len() > 0 && path[path.len() - 1] != path::SLASH {
            path.push(path::SLASH);
        }
        let mut bytes = name.as_str().as_bytes_vec();
        path.append(&mut bytes);
        assert(path@ == path::with_segment(dir, encode_utf8(name@)));
        FileCredentialStore::at(path)
    }

    /// An exact path, for a node whose location is decided by something else.
    pub fn at(path: Vec<u8>) -> (out: FileCredentialStore)
        ensures
            out.path == path,
    {
        FileCredentialStore { path }
    }

    /// Where this backend keeps things. Never a secret: this is a path.
    pub fn describe(&self) -> (out: String)
        ensures
            out@ == text::lossy_text(self.path@),
    {
        read_lossy(&self.path)
    }
}

/// Where the credential for a deployment and profile is kept.
pub open spec fn located(env: Env, server_url: Seq<char>, profile: Seq<char>) -> Seq<u8> {
    path::with_segment(directory(env), encode_utf8(name_of(server_url, profile)))
}

/// The credential file lies in the directory that the path gate denies, whatever the deployment
/// and the profile are called.
pub proof fn the_credential_lies_where_the_gate_denies(
    env: Env,
    server_url: Seq<char>,
    profile: Seq<char>,
)
    ensures
        path::parts_of(located(env, server_url, profile)) == path::parts_of(directory(env)).push(
            PartView::Name(encode_utf8(name_of(server_url, profile))),
        ),
        path::under(
            path::parts_of(located(env, server_url, profile)),
            path::parts_of(directory(env)),
        ),
{
    lemma_file_name_is_a_name(server_url, profile);
    reveal_strlit("/var/lib/zyris-docker");
    is_ascii_chars_encode_utf8(DEFAULT_CREDENTIAL_DIR@);
    path::a_name_lies_below_its_directory(
        directory(env),
        encode_utf8(name_of(server_url, profile)),
    );
}

// ---------------------------------------------------------------------------------------------
// What can go wrong
// ---------------------------------------------------------------------------------------------

/// What went wrong reaching a credential, in the only two shades the caller can act on.
#[derive(Debug)]
pub enum CredentialStoreError {
    /// The credential may exist, but using it would be wrong and someone needs to know: a
    /// world-readable key file. Never discarded silently.
    Refused(String),
    /// Unreadable, corrupt, or written by a version this build does not understand. Safe to throw
    /// away and enroll again.
    Unusable(String),
}

/// What a [`CredentialStoreError`] says.
pub enum StoreTroubleView {
    Refused(Seq<char>),
    Unusable(Seq<char>),
}

impl View for CredentialStoreError {
    type V = StoreTroubleView;

    open spec fn view(&self) -> StoreTroubleView {
        match self {
            CredentialStoreError::Refused(message) => StoreTroubleView::Refused(message@),
            CredentialStoreError::Unusable(message) => StoreTroubleView::Unusable(message@),
        }
    }
}

/// The message that a trouble with the store carries.
pub open spec fn told(trouble: StoreTroubleView) -> Seq<char> {
    match trouble {
        StoreTroubleView::Refused(message) => message,
        StoreTroubleView::Unusable(message) => message,
    }
}

impl CredentialStoreError {
    /// Whether the caller may respond by clearing the credential and starting over.
    pub fn is_discardable(&self) -> (yes: bool)
        ensures
            yes == self@ is Unusable,
    {
        match self {
            CredentialStoreError::Unusable(_) => true,
            CredentialStoreError::Refused(_) => false,
        }
    }

    /// The message, which is all there is to show of it.
    pub fn message(&self) -> (out: String)
        ensures
            out@ == told(self@),
    {
        match self {
            CredentialStoreError::Refused(message) => message.clone(),
            CredentialStoreError::Unusable(message) => message.clone(),
        }
    }
}

/// What the file backend can fail with, before it is classified into a [`CredentialStoreError`].
#[derive(Debug)]
pub enum StoreError {
    /// Others than its owner may read the file.
    Permissive { path: String, mode: u32 },
    /// The file has a format that this build does not understand.
    UnknownVersion { found: u32, expected: u32 },
    /// The file does not hold a credential, and what is wrong with it.
    Corrupt(String),
    /// The file system failed, and what it said.
    Io(String),
}

/// A mode in at least four octal digits.
pub open spec fn octal(mode: u32) -> Seq<char> {
    let digits = numbers::written(mode as nat, 8);
    if digits.len() < 4 {
        Seq::new((4 - digits.len()) as nat, |i: int| '0') + digits
    } else {
        digits
    }
}

fn write_octal(mode: u32) -> (out: String)
    ensures
        out@ == octal(mode),
{
    let digits = write_number(mode as u64, 8);
    let n: usize = chars_of(digits.as_str()).len();
    let mut out = String::new();
    let mut i: usize = n;
    assert(out@ == Seq::new(0, |i: int| '0'));
    while i < 4
        invariant
            n <= i <= 4 || i == n,
            out@ == Seq::new((i - n) as nat, |i: int| '0'),
        decreases 4 - i,
    {
        out.push('0');
        i += 1;
        assert(out@ =~= Seq::new((i - n) as nat, |i: int| '0'));
    }
    assert(n >= 4 ==> out@ =~= Seq::<char>::empty());
    let ghost zeros = out@;
    out.append(digits.as_str());
    assert(n >= 4 ==> zeros + digits@ =~= digits@);
    out
}

/// What is shown of a failure. A file that others may read is shown with the fix, not just the
/// fault.
pub open spec fn explained(error: StoreError) -> Seq<char> {
    match error {
        StoreError::Permissive { path, mode } => "credential file "@ + path@
            + " is readable by other users (mode "@ + octal(mode) + "); run: chmod 600 "@ + path@,
        StoreError::UnknownVersion { found, expected } =>
        "credential file was written by a newer version ("@ + numbers::decimal(found as nat)
            + ", expected "@ + numbers::decimal(expected as nat) + ")"@,
        StoreError::Corrupt(why) => "credential file is corrupt: "@ + why@,
        StoreError::Io(why) => why@,
    }
}

/// Which of the two shades a failure has. An exposed secret is not a reason to quietly enroll
/// again; a file this build cannot read is a reason to enroll again, not to die.
pub open spec fn shaded(error: StoreError) -> StoreTroubleView {
    match error {
        StoreError::Permissive { .. } => StoreTroubleView::Refused(explained(error)),
        _ => StoreTroubleView::Unusable(explained(error)),
    }
}

impl StoreError {
    /// What is shown of the failure.
    pub fn message(&self) -> (out: String)
        ensures
            out@ == explained(*self),
    {
        match self {
            StoreError::Permissive { path, mode } => {
                let mut out = "credential file ".to_owned();
                out.append(path.as_str());
                out.append(" is readable by other users (mode ");
                let digits = write_octal(*mode);
                out.append(digits.as_str());
                out.append("); run: chmod 600 ");
                out.append(path.as_str());
                out
            },
            StoreError::UnknownVersion { found, expected } => {
                let mut out = "credential file was written by a newer version (".to_owned();
                let digits = write_decimal(*found as u64);
                out.append(digits.as_str());
                out.append(", expected ");
                let digits = write_decimal(*expected as u64);
                out.append(digits.as_str());
                out.append(")");
                out
            },
            StoreError::Corrupt(why) => {
                let mut out = "credential file is corrupt: ".to_owned();
                out.append(why.as_str());
                out
            },
            StoreError::Io(why) => why.clone(),
        }
    }

    /// Which of the two shades the failure has.
    pub fn classify(&self) -> (out: CredentialStoreError)
        ensures
            out@ == shaded(*self),
    {
        let message = self.message();
        match self {
            StoreError::Permissive { .. } => CredentialStoreError::Refused(message),
            _ => CredentialStoreError::Unusable(message),
        }
    }
}

// ---------------------------------------------------------------------------------------------
// Reading, writing, forgetting
// ---------------------------------------------------------------------------------------------

/// What was found where a credential is kept.
pub enum Found<C> {
    /// There is no file.
    Missing,
    /// There is a file, but it or its mode could not be read, and what the system said.
    Unreadable(String),
    /// There is a file with this mode, and what its contents are as a credential, or what is wrong
    /// with them.
    Present { mode: u32, parsed: Result<C, String> },
}

/// Whether anyone but the owner may do anything with a file of this mode.
pub open spec fn is_permissive(mode: u32) -> bool {
    mode & 0o777 & 0o077 != 0
}

/// Whether this is what a file that was found comes to: no credential where there is no file, else
/// the credential where the file is private, can be read, and has the version that this build
/// understands, else the first of these that fails.
pub open spec fn loads<C: Stored>(
    path: Seq<u8>,
    found: Found<C>,
    out: Result<Option<C>, StoreError>,
) -> bool {
    match found {
        Found::Missing => out matches Ok(None),
        Found::Unreadable(why) => out matches Err(StoreError::Io(said)) && said@ == why@,
        Found::Present { mode, parsed } => if is_permissive(mode) {
            &&& out matches Err(StoreError::Permissive { path: shown, mode: bits })
            &&& shown@ == text::lossy_text(path)
            &&& bits == mode & 0o777
        } else {
            match parsed {
                Err(why) => out matches Err(StoreError::Corrupt(said)) && said@ == why@,
                Ok(credential) => if credential.stamp() != C::understood() {
                    &&& out matches Err(StoreError::UnknownVersion { found, expected })
                    &&& found == credential.stamp()
                    &&& expected == C::understood()
                } else {
                    out == Ok::<Option<C>, StoreError>(Some(credential))
                },
            }
        },
    }
}

/// What was read where a credential is kept.
pub enum Contents {
    /// There is no file.
    Missing,
    /// There is a file, but it or its mode could not be read, and what the system said.
    Unreadable(String),
    /// There is a file with this mode, and these bytes are in it.
    Read { mode: u32, bytes: Vec<u8> },
}

/// Whether what was read is this find: the same, with the bytes read as a credential.
pub open spec fn reads_as(contents: Contents, found: Found<Credential>) -> bool {
    match contents {
        Contents::Missing => found is Missing,
        Contents::Unreadable(why) => found == Found::<Credential>::Unreadable(why),
        Contents::Read { mode, bytes } => match found {
            Found::Present { mode: bits, parsed } => {
                &&& bits == mode
                &&& match stored::parsed_credential(bytes@) {
                    Ok(view) => parsed matches Ok(credential) && credential.deep_view() == view,
                    Err(why) => parsed matches Err(error) && error@ == why,
                }
            },
            _ => false,
        },
    }
}

/// What came of removing a file.
pub enum Removal {
    Removed,
    /// There was no file.
    Missing,
    /// The file is still there, and what the system said.
    Failed(String),
}

impl FileCredentialStore {
    /// Read a stored credential, or `None` when there is none yet.
    ///
    /// A file with group or other bits set is **refused**, the way `ssh` refuses a world-readable
    /// private key. Refusing is safer than silently repairing: the operator should know it was
    /// exposed.
    pub fn load<C: Stored>(&self, found: Found<C>) -> (out: Result<Option<C>, StoreError>)
        ensures
            loads(self.path@, found, out),
    {
        match found {
            Found::Missing => Ok(None),
            Found::Unreadable(why) => Err(StoreError::Io(why)),
            Found::Present { mode, parsed } => {
                let bits: u32 = mode & 0o777;
                if bits & 0o077 != 0 {
                    return Err(StoreError::Permissive { path: self.describe(), mode: bits });
                }
                match parsed {
                    Err(why) => Err(StoreError::Corrupt(why)),
                    Ok(credential) => {
                        let found: u32 = credential.version();
                        let expected: u32 = C::expected();
                        if found != expected {
                            Err(StoreError::UnknownVersion { found, expected })
                        } else {
                            Ok(Some(credential))
                        }
                    },
                }
            },
        }
    }

    /// Read the stored credential out of what is in its file, or `None` when there is none yet, by
    /// the same rules.
    pub fn load_file(&self, contents: Contents) -> (out: Result<Option<Credential>, StoreError>)
        ensures
            exists|found: Found<Credential>| #[trigger]
                reads_as(contents, found) && loads(self.path@, found, out),
    {
        let found: Found<Credential> = match &contents {
            Contents::Missing => Found::Missing,
            Contents::Unreadable(why) => Found::Unreadable(why.clone()),
            Contents::Read { mode, bytes } => Found::Present {
                mode: *mode,
                parsed: read_credential(bytes),
            },
        };
        assert(reads_as(contents, found));
        self.load(found)
    }

    /// What a credential's file is to hold.
    pub fn file_contents(&self, credential: &Credential) -> (out: Result<Vec<u8>, StoreError>)
        ensures
            match stored::written_credential(credential.deep_view()) {
                Ok(written) => out matches Ok(bytes) && bytes@ == written,
                Err(why) => out matches Err(StoreError::Corrupt(said)) && said@ == why,
            },
            out matches Ok(bytes) ==> stored::parsed_credential(bytes@) == Ok::<
                CredentialView,
                Seq<char>,
            >(credential.deep_view()),
    {
        match write_credential(credential) {
            Ok(bytes) => Ok(bytes),
            Err(why) => Err(StoreError::Corrupt(why)),
        }
    }

    /// What came of forgetting a credential: forgetting nothing is success.
    pub fn clear(&self, removal: Removal) -> (out: Result<(), StoreError>)
        ensures
            match removal {
                Removal::Failed(why) => out matches Err(StoreError::Io(said)) && said@ == why@,
                _ => out is Ok,
            },
    {
        match removal {
            Removal::Failed(why) => Err(StoreError::Io(why)),
            _ => Ok(()),
        }
    }
}

/// A permissive file is never answered with a quiet enrollment, and nothing else that can be found
/// stops one.
pub proof fn only_an_exposed_credential_is_not_discardable<C: Stored>(
    path: Seq<u8>,
    found: Found<C>,
    out: Result<Option<C>, StoreError>,
)
    requires
        loads(path, found, out),
        out is Err,
    ensures
        shaded(out->Err_0) is Refused <==> (found matches Found::Present { mode, .. }
            && is_permissive(mode)),
{
}

/// What may be done with a credential file, and by whom: its owner may read and write it.
pub const CREDENTIAL_MODE: u32 = 0o600;

/// What was written loads again: a file with the mode that a credential is written with is private,
/// and the credential in it is given back where it has the version that this build understands.
pub proof fn a_saved_credential_loads<C: Stored>(
    path: Seq<u8>,
    mode: u32,
    credential: C,
    out: Result<Option<C>, StoreError>,
)
    requires
        mode & 0o777 == CREDENTIAL_MODE,
        credential.stamp() == C::understood(),
        loads(path, Found::Present { mode, parsed: Ok(credential) }, out),
    ensures
        out == Ok::<Option<C>, StoreError>(Some(credential)),
{
    assert(0o600u32 & 0o077 == 0) by (bit_vector);
}

/// What is in the file of a written credential loads as that credential: bytes that read back as a
/// credential of the version that this build understands, in a file with the mode that a credential
/// is written with.
pub proof fn a_written_file_loads(
    path: Seq<u8>,
    mode: u32,
    bytes: Vec<u8>,
    credential: CredentialView,
    found: Found<Credential>,
    out: Result<Option<Credential>, StoreError>,
)
    requires
        mode & 0o777 == CREDENTIAL_MODE,
        credential.version == stored::CREDENTIAL_VERSION,
        stored::parsed_credential(bytes@) == Ok::<CredentialView, Seq<char>>(credential),
        reads_as(Contents::Read { mode, bytes }, found),
        loads(path, found, out),
    ensures
        out matches Ok(Some(read)) && read.deep_view() == credential,
{
    assert(0o600u32 & 0o077 == 0) by (bit_vector);
}

/// One step of writing a credential.
pub enum SaveStep {
    /// Make a directory, and those above it that are missing.
    MakeDirectory { path: Vec<u8> },
    /// Set what may be done with a file or directory, and by whom.
    SetMode { path: Vec<u8>, mode: u32 },
    /// Make an empty file, in place of one that is there.
    Create { path: Vec<u8> },
    /// Write the credential into the file and wait until it is on disk.
    WriteThrough { path: Vec<u8> },
    /// Give the file its name, in place of one that has it.
    Rename { from: Vec<u8>, to: Vec<u8> },
}

/// What a [`SaveStep`] does.
pub enum StepView {
    MakeDirectory { path: Seq<u8> },
    SetMode { path: Seq<u8>, mode: u32 },
    Create { path: Seq<u8> },
    WriteThrough { path: Seq<u8> },
    Rename { from: Seq<u8>, to: Seq<u8> },
}

impl DeepView for SaveStep {
    type V = StepView;

    open spec fn deep_view(&self) -> StepView {
        match self {
            SaveStep::MakeDirectory { path } => StepView::MakeDirectory { path: path@ },
            SaveStep::SetMode { path, mode } => StepView::SetMode { path: path@, mode: *mode },
            SaveStep::Create { path } => StepView::Create { path: path@ },
            SaveStep::WriteThrough { path } => StepView::WriteThrough { path: path@ },
            SaveStep::Rename { from, to } => StepView::Rename { from: from@, to: to@ },
        }
    }
}

/// Where a byte occurs last, or -1.
pub open spec fn last_byte(s: Seq<u8>, b: u8) -> int
    decreases s.len(),
{
    if s.len() == 0 {
        -1
    } else if s.last() == b {
        s.len() - 1
    } else {
        last_byte(s.drop_last(), b)
    }
}

/// A file name without its extension. A dot that starts the name does not start an extension.
pub open spec fn stem(name: Seq<u8>) -> Seq<u8> {
    let dot = last_byte(name, DOT);
    if dot <= 0 {
        name
    } else {
        name.take(dot)
    }
}

/// The extension `tmp` with its dot.
pub open spec fn tmp() -> Seq<u8> {
    seq![0x2e, 0x74, 0x6d, 0x70]
}

/// The file that a credential is written to before it gets its name: beside the file itself, with
/// the extension `tmp`.
pub open spec fn temp_of(path: Seq<u8>) -> Seq<u8> {
    let parts = path::parts_of(path);
    if parts.len() > 0 && parts.last() is Name {
        path::spelled(parts.drop_last().push(PartView::Name(stem(parts.last()->0) + tmp())))
    } else {
        path
    }
}

/// The directory that a path lies in, where it lies in one.
pub open spec fn parent_of(path: Seq<u8>) -> Option<Seq<u8>> {
    let parts = path::parts_of(path);
    if parts.len() > 0 && !(parts.last() is Root) {
        Some(path::spelled(parts.drop_last()))
    } else {
        None
    }
}

/// How a credential is written: into a directory that only its owner may enter, to a temporary
/// file that only its owner may read before anything is in it, which gets its name once it is
/// complete.
pub open spec fn steps(path: Seq<u8>) -> Seq<StepView> {
    let temp = temp_of(path);
    (match parent_of(path) {
        Some(parent) => seq![
            StepView::MakeDirectory { path: parent },
            StepView::SetMode { path: parent, mode: 0o700 },
        ],
        None => Seq::empty(),
    }) + seq![
        StepView::Create { path: temp },
        StepView::SetMode { path: temp, mode: CREDENTIAL_MODE },
        StepView::WriteThrough { path: temp },
        StepView::Rename { from: temp, to: path },
    ]
}

/// Whether a step changes what a file holds.
pub open spec fn changes(step: StepView, file: Seq<u8>) -> bool {
    match step {
        StepView::Create { path } => path == file,
        StepView::WriteThrough { path } => path == file,
        StepView::Rename { from, to } => from == file || to == file,
        _ => false,
    }
}

proof fn lemma_stem_is_a_start(name: Seq<u8>)
    requires
        name.len() > 0,
    ensures
        0 < stem(name).len() <= name.len(),
        stem(name) == name.take(stem(name).len() as int),
{
    lemma_last_byte_is_inside(name);
    assert(name.take(name.len() as int) == name);
}

proof fn lemma_last_byte_is_inside(name: Seq<u8>)
    ensures
        -1 <= last_byte(name, DOT) < name.len(),
    decreases name.len(),
{
    if name.len() > 0 && name.last() != DOT {
        lemma_last_byte_is_inside(name.drop_last());
    }
}

/// A credential is replaced whole: only the last step, the renaming, changes what the file holds.
/// The exception is a file that has the temporary name itself.
pub proof fn a_credential_is_replaced_whole(path: Seq<u8>)
    requires
        path::parts_of(path).len() > 0,
        path::parts_of(path).last() matches PartView::Name(name) && name != stem(name) + tmp(),
    ensures
        steps(path).len() > 0,
        changes(steps(path).last(), path),
        forall|i: int|
            0 <= i < steps(path).len() - 1 ==> !#[trigger] changes(steps(path)[i], path),
{
    let parts = path::parts_of(path);
    path::parts_are_valid(path);
    let name = parts.last()->0;
    let fresh = stem(name) + tmp();
    let beside = parts.drop_last().push(PartView::Name(fresh));
    assert(parts[parts.len() - 1] == PartView::Name(name));
    assert(path::is_name(name));
    lemma_stem_is_a_start(name);
    assert(path::is_name(fresh)) by {
        assert forall|i: int| 0 <= i < fresh.len() implies fresh[i] != path::SLASH by {
            if i < stem(name).len() {
                assert(fresh[i] == name[i]);
                assert(name.contains(name[i]));
            } else {
                assert(fresh[i] == tmp()[i - stem(name).len()]);
            }
        }
        assert(fresh.len() > 4);
    }
    assert(path::valid(beside)) by {
        assert forall|i: int| 0 <= i < beside.len() implies match #[trigger] beside[i] {
            PartView::Root => i == 0,
            PartView::Current => i == 0,
            PartView::Parent => true,
            PartView::Name(name) => path::is_name(name),
        } by {
            if i < beside.len() - 1 {
                assert(beside[i] == parts[i]);
            }
        }
    }
    path::a_written_path_reads_back(beside);
    assert(beside.last() == PartView::Name(fresh));
    assert(temp_of(path) != path);
}

fn find_last_dot(name: &Vec<u8>) -> (out: Option<usize>)
    ensures
        out matches Some(at) ==> at < name@.len() && at == last_byte(name@, DOT),
        out is None ==> last_byte(name@, DOT) == -1,
{
    let mut i: usize = 0;
    let mut found: Option<usize> = None;
    while i < name.len()
        invariant
            i <= name@.len(),
            found matches Some(at) ==> at < i && at == last_byte(name@.take(i as int), DOT),
            found is None ==> last_byte(name@.take(i as int), DOT) == -1,
        decreases name@.len() - i,
    {
        assert(name@.take(i + 1).drop_last() == name@.take(i as int));
        if name[i] == DOT {
            found = Some(i);
        }
        i += 1;
    }
    assert(name@.take(name@.len() as int) == name@);
    found
}

fn copy_start(bytes: &Vec<u8>, count: usize) -> (out: Vec<u8>)
    requires
        count <= bytes@.len(),
    ensures
        out@ == bytes@.take(count as int),
{
    let mut out: Vec<u8> = Vec::new();
    let mut i: usize = 0;
    while i < count
        invariant
            i <= count <= bytes@.len(),
            out@ == bytes@.take(i as int),
        decreases count - i,
    {
        out.push(bytes[i]);
        i += 1;
        assert(bytes@.take(i as int) == bytes@.take(i - 1).push(bytes@[i - 1]));
    }
    assert(count == 0 ==> out@ == bytes@.take(0));
    out
}

fn copy_bytes(bytes: &Vec<u8>) -> (out: Vec<u8>)
    ensures
        out@ == bytes@,
{
    let out = copy_start(bytes, bytes.len());
    assert(bytes@.take(bytes@.len() as int) == bytes@);
    out
}

impl FileCredentialStore {
    fn temp(&self) -> (out: Vec<u8>)
        ensures
            out@ == temp_of(self.path@),
    {
        let whole = NodePath::parse(self.path.as_slice());
        let n: usize = whole.parts.len();
        if n == 0 {
            return copy_bytes(&self.path);
        }
        assert(whole@.last() == whole.parts@[n - 1].deep_view());
        if let Part::Name(name) = &whole.parts[n - 1] {
            let end: usize = match find_last_dot(name) {
                Some(dot) => if dot == 0 {
                    name.len()
                } else {
                    dot
                },
                None => name.len(),
            };
            assert(name@.take(name@.len() as int) == name@);
            let mut fresh = copy_start(name, end);
            assert(fresh@ == stem(name@));
            let ghost start = fresh@;
            fresh.push(0x2e);
            fresh.push(0x74);
            fresh.push(0x6d);
            fresh.push(0x70);
            assert(fresh@ =~= start + tmp());
            let mut beside = whole.prefix(n - 1);
            let ghost before = beside@;
            beside.parts.push(Part::Name(fresh));
            assert(beside@ =~= before.push(PartView::Name(fresh@)));
            assert(whole@.take(n - 1) == whole@.drop_last());
            beside.spell()
        } else {
            copy_bytes(&self.path)
        }
    }

    fn parent(&self) -> (out: Option<Vec<u8>>)
        ensures
            out is Some == parent_of(self.path@) is Some,
            out matches Some(parent) ==> parent_of(self.path@) == Some(parent@),
    {
        let whole = NodePath::parse(self.path.as_slice());
        let n: usize = whole.parts.len();
        if n == 0 {
            return None;
        }
        assert(whole@.last() == whole.parts@[n - 1].deep_view());
        match &whole.parts[n - 1] {
            Part::Root => None,
            _ => {
                assert(whole@.take(n - 1) == whole@.drop_last());
                Some(whole.prefix(n - 1).spell())
            },
        }
    }

    /// The steps that write a credential, each to be taken only after the one before it succeeded.
    ///
    /// A node killed mid-write must not come back to a half-written credential, because that is
    /// indistinguishable from a corrupt one and would force an enrollment that needs a person.
    pub fn save_steps(&self) -> (out: Vec<SaveStep>)
        ensures
            out.deep_view() == steps(self.path@),
    {
        let mut out: Vec<SaveStep> = Vec::new();
        if let Some(parent) = self.parent() {
            out.push(SaveStep::MakeDirectory { path: copy_bytes(&parent) });
            out.push(SaveStep::SetMode { path: parent, mode: 0o700 });
        }
        let temp = self.temp();
        out.push(SaveStep::Create { path: copy_bytes(&temp) });
        out.push(SaveStep::SetMode { path: copy_bytes(&temp), mode: CREDENTIAL_MODE });
        out.push(SaveStep::WriteThrough { path: copy_bytes(&temp) });
        out.push(SaveStep::Rename { from: temp, to: copy_bytes(&self.path) });
        assert(out.deep_view() =~= steps(self.path@));
        out
    }
}

// ---------------------------------------------------------------------------------------------
// A store in memory
// ---------------------------------------------------------------------------------------------

/// Keeps a credential for exactly as long as the process lives.
pub struct MemoryCredentialStore<C> {
    held: Option<C>,
}

impl<C: Stored> MemoryCredentialStore<C> {
    /// What is kept.
    pub closed spec fn holds(&self) -> Option<C::V> {
        self.held.deep_view()
    }

    /// A store that keeps nothing yet.
    pub fn new() -> (out: MemoryCredentialStore<C>)
        ensures
            out.holds() is None,
    {
        MemoryCredentialStore { held: None }
    }

    /// The stored credential, or `None` when there is none.
    pub fn load(&self) -> (out: Option<C>)
        ensures
            out.deep_view() == self.holds(),
    {
        match &self.held {
            Some(credential) => Some(credential.copy()),
            None => None,
        }
    }

    /// Write, replacing whatever was there.
    pub fn save(&mut self, credential: &C)
        ensures
            final(self).holds() == Some(credential.deep_view()),
    {
        self.held = Some(credential.copy());
    }

    /// Forget what is kept. Forgetting nothing is success, not an error.
    pub fn clear(&mut self)
        ensures
            final(self).holds() is None,
    {
        self.held = None;
    }

    /// Where this backend keeps things.
    pub fn describe(&self) -> (out: String)
        ensures
            out@ == "memory (this credential is lost on restart)"@,
    {
        "memory (this credential is lost on restart)".to_owned()
    }
}

// ---------------------------------------------------------------------------------------------
// What a credential file keeps to
// ---------------------------------------------------------------------------------------------

/// Letters and digits come through into a slug, in order and in lower case, and a run of anything
/// else between them becomes one dash. In front there is none.
pub proof fn a_slug_keeps_letters_and_digits(a: Seq<char>, junk: Seq<char>, b: Seq<char>, c: char)
    requires
        forall|i: int|
            0 <= i < junk.len() ==> !('a' <= #[trigger] junk[i] <= 'z' || 'A' <= junk[i] <= 'Z'
                || '0' <= junk[i] <= '9'),
    ensures
        b.len() > 0 && ('a' <= b[0] <= 'z' || 'A' <= b[0] <= 'Z' || '0' <= b[0] <= '9') ==> dashed(
            a + b,
        ) == dashed(a) + dashed(b),
        a.len() > 0 && ('a' <= a.last() <= 'z' || 'A' <= a.last() <= 'Z' || '0' <= a.last() <= '9')
            && junk.len() > 0 ==> dashed(a + junk) == dashed(a).push('-'),
        dashed(junk) == Seq::<char>::empty(),
        'a' <= c <= 'z' || '0' <= c <= '9' ==> dashed(seq![c]) == seq![c],
        'A' <= c <= 'Z' ==> dashed(seq![c]).len() == 1 && dashed(seq![c])[0] as u32 == c as u32 + 32,
{
    assert forall|i: int| 0 <= i < junk.len() implies !is_plain(#[trigger] junk[i]) by {}
    lemma_junk_says_nothing(junk);
    if a.len() > 0 && is_plain(a.last()) && junk.len() > 0 {
        lemma_junk_is_one_dash(a, junk);
    }
    if b.len() > 0 && is_plain(b[0]) {
        lemma_dashed_adds_up(a, b);
    }
    assert(seq![c].drop_last() == Seq::<char>::empty());
    assert(seq![c].last() == c);
    assert(dashed(Seq::<char>::empty()) == Seq::<char>::empty());
    if is_plain(c) {
        assert(dashed(seq![c]) == seq![lowered(c)]);
    }
}

proof fn lemma_junk_says_nothing(junk: Seq<char>)
    requires
        forall|i: int| 0 <= i < junk.len() ==> !is_plain(#[trigger] junk[i]),
    ensures
        dashed(junk) == Seq::<char>::empty(),
    decreases junk.len(),
{
    if junk.len() > 0 {
        let less = junk.drop_last();
        assert forall|i: int| 0 <= i < less.len() implies !is_plain(#[trigger] less[i]) by {
            assert(less[i] == junk[i]);
        }
        lemma_junk_says_nothing(less);
        assert(!is_plain(junk[junk.len() - 1]));
    }
}

proof fn lemma_junk_is_one_dash(a: Seq<char>, junk: Seq<char>)
    requires
        a.len() > 0,
        is_plain(a.last()),
        junk.len() > 0,
        forall|i: int| 0 <= i < junk.len() ==> !is_plain(#[trigger] junk[i]),
    ensures
        dashed(a + junk) == dashed(a).push('-'),
    decreases junk.len(),
{
    let whole = a + junk;
    let less = junk.drop_last();
    lemma_lowered(a.last());
    assert(dashed(a).last() == lowered(a.last()));
    assert(whole.drop_last() == a + less);
    assert(whole.last() == junk[junk.len() - 1]);
    if less.len() == 0 {
        assert(a + less == a);
    } else {
        assert forall|i: int| 0 <= i < less.len() implies !is_plain(#[trigger] less[i]) by {
            assert(less[i] == junk[i]);
        }
        lemma_junk_is_one_dash(a, less);
    }
}

proof fn lemma_dashed_adds_up(a: Seq<char>, b: Seq<char>)
    requires
        b.len() > 0,
        is_plain(b[0]),
    ensures
        dashed(a + b) == dashed(a) + dashed(b),
        dashed(b).len() > 0,
    decreases b.len(),
{
    let whole = a + b;
    let less = b.drop_last();
    assert(whole.drop_last() == a + less);
    assert(whole.last() == b.last());
    if less.len() == 0 {
        assert(b == seq![b[0]]);
        assert(a + less == a);
        assert(dashed(less) == Seq::<char>::empty());
        assert(dashed(b) == seq![lowered(b[0])]);
        assert(dashed(whole) == dashed(a) + dashed(b));
    } else {
        assert(less[0] == b[0]);
        lemma_dashed_adds_up(a, less);
        assert((dashed(a) + dashed(less)).last() == dashed(less).last());
        assert(dashed(whole) == dashed(a) + dashed(b));
    }
}

/// A slug is what comes through, cut to 48 characters and without a dash at its end; where nothing
/// comes through, it is `default`. A text that is already safe is left as it is.
pub proof fn a_slug_is_what_comes_through(s: Seq<char>)
    ensures
        dashed(s).len() == 0 ==> slug(s) == "default"@,
        0 < dashed(s).len() <= 48 && dashed(s).last() != '-' ==> slug(s) == dashed(s),
        0 < dashed(s).len() <= 48 && dashed(s).last() == '-' ==> slug(s) == dashed(s).drop_last(),
        dashed(s).len() > 48 ==> text::begins_with(dashed(s), slug(s)) && 47 <= slug(s).len() <= 48,
        is_safe(s) ==> slug(s) == s,
{
    lemma_dashed_is_regular(s);
    if is_safe(s) {
        lemma_safe_is_fixed(s, s.len() as int);
        assert(s.take(s.len() as int) == s);
    }
    if dashed(s).len() == 1 {
        assert(dashed(s)[0] == dashed(s).last());
    }
    if dashed(s).len() > 48 {
        let short = dashed(s).take(48);
        assert(short.drop_last() == dashed(s).take(47));
    }
}

/// A credential file is named after the slugs of its deployment and its profile, and lies in the
/// directory that is set, or in the default one where none is.
pub proof fn a_credential_file_is_named_after_both(env: Env, server_url: Seq<char>, profile: Seq<char>)
    ensures
        name_of(server_url, profile) == slug(server_url) + "-"@ + slug(profile) + ".json"@,
        env.bytes("ZYRIS_CONFIG_DIR"@) matches Some(given) ==> given.len() > 0 ==> directory(env)
            == given,
        env.bytes("ZYRIS_CONFIG_DIR"@) is None ==> directory(env) == encode_utf8(
            "/var/lib/zyris-docker"@,
        ),
        env.bytes("ZYRIS_CONFIG_DIR"@) is Some && env.bytes("ZYRIS_CONFIG_DIR"@)->0.len() == 0
            ==> directory(env) == encode_utf8("/var/lib/zyris-docker"@),
        located(env, server_url, profile) == path::with_segment(
            directory(env),
            encode_utf8(name_of(server_url, profile)),
        ),
{
}

/// A file counts as exposed exactly where any of the six lowest bits of its mode is set: those that
/// let the group or others read, write or run it.
pub proof fn a_file_is_exposed_by_its_six_lowest_bits(mode: u32)
    ensures
        is_permissive(mode) <==> mode % 64 != 0,
{
    assert((mode & 0o777 & 0o077 != 0) <==> mode % 64 != 0) by (bit_vector);
}

/// What a file comes to, case by case: without one there is no credential; one that could not be read
/// is told; an exposed one is refused whatever is in it; and of a private one the credential is given
/// back exactly where it can be read and has the version that this build understands.
pub proof fn a_credential_loads_only_from_a_private_file<C: Stored>(
    path: Seq<u8>,
    found: Found<C>,
    out: Result<Option<C>, StoreError>,
)
    requires
        loads(path, found, out),
    ensures
        out matches Ok(None) <==> found is Missing,
        out is Ok && out->Ok_0 is Some ==> {
            &&& found matches Found::Present { mode, parsed }
            &&& mode % 64 == 0
            &&& parsed == Ok::<C, String>(out->Ok_0->0)
            &&& out->Ok_0->0.stamp() == C::understood()
        },
        found matches Found::Present { mode, parsed } ==> {
            &&& mode % 64 != 0 <==> out is Err && out->Err_0 is Permissive
            &&& mode % 64 == 0 && parsed is Err ==> (out matches Err(StoreError::Corrupt(said))
                && said@ == parsed->Err_0@)
            &&& mode % 64 == 0 && parsed is Ok && parsed->Ok_0.stamp() != C::understood() ==> (out
                matches Err(StoreError::UnknownVersion { found, expected }) && found
                == parsed->Ok_0.stamp() && expected == C::understood())
            &&& mode % 64 == 0 && parsed is Ok && parsed->Ok_0.stamp() == C::understood() ==> out
                == Ok::<Option<C>, StoreError>(Some(parsed->Ok_0))
        },
        found matches Found::Unreadable(why) ==> (out matches Err(StoreError::Io(said)) && said@
            == why@),
{
    if let Found::Present { mode, parsed } = found {
        a_file_is_exposed_by_its_six_lowest_bits(mode);
    }
}

/// Only an exposed file stops the node; whatever else is wrong with a stored credential, it may be
/// thrown away.
pub proof fn only_exposure_is_not_thrown_away(path: String, mode: u32, found: u32, expected: u32, why: String)
    ensures
        shaded(StoreError::Permissive { path, mode }) is Refused,
        shaded(StoreError::UnknownVersion { found, expected }) is Unusable,
        shaded(StoreError::Corrupt(why)) is Unusable,
        shaded(StoreError::Io(why)) is Unusable,
        told(shaded(StoreError::Permissive { path, mode })) == "credential file "@ + path@
            + " is readable by other users (mode "@ + octal(mode) + "); run: chmod 600 "@ + path@,
        told(shaded(StoreError::UnknownVersion { found, expected }))
            == "credential file was written by a newer version ("@ + numbers::decimal(found as nat)
            + ", expected "@ + numbers::decimal(expected as nat) + ")"@,
        told(shaded(StoreError::Corrupt(why))) == "credential file is corrupt: "@ + why@,
        told(shaded(StoreError::Io(why))) == why@,
{
}

/// A mode is shown as a zero and its three octal digits.
pub proof fn a_mode_is_shown_in_octal(mode: u32)
    requires
        mode < 512,
    ensures
        octal(mode) == seq![
            '0',
            ('0' as nat + mode as nat / 64) as char,
            ('0' as nat + mode as nat / 8 % 8) as char,
            ('0' as nat + mode as nat % 8) as char,
        ],
{
    let n = mode as nat;
    reveal_with_fuel(numbers::written, 4);
    let digits = numbers::written(n, 8);
    assert(n / 8 / 8 == n / 64);
    if n < 8 {
        assert(digits == seq![numbers::digit_char(n)]);
        assert(n / 64 == 0 && n / 8 % 8 == 0 && n % 8 == n);
    } else if n < 64 {
        assert(digits == seq![numbers::digit_char(n / 8), numbers::digit_char(n % 8)]);
        assert(n / 64 == 0 && n / 8 % 8 == n / 8);
    } else {
        assert(digits == seq![
            numbers::digit_char(n / 64),
            numbers::digit_char(n / 8 % 8),
            numbers::digit_char(n % 8),
        ]);
    }
    assert(('0' as nat + 0) as char == '0');
}

/// A credential is never on disk where others may read it: the temporary file is private before
/// anything is written into it, what is written goes there, and it gets the file's name last. The
/// directory is made, and closed to others, before that.
pub proof fn a_credential_is_private_before_it_is_written(path: Seq<u8>, i: int)
    ensures
        ({
            let all = steps(path);
            &&& all.len() >= 4
            &&& 0 <= i < all.len() ==> (all[i] matches StepView::WriteThrough { path: to } ==> {
                &&& to == temp_of(path)
                &&& i > 0
                &&& all[i - 1] == (StepView::SetMode { path: to, mode: 0o600 })
            })
            &&& all.last() == (StepView::Rename { from: temp_of(path), to: path })
            &&& all[all.len() - 2] == (StepView::WriteThrough { path: temp_of(path) })
            &&& all[all.len() - 4] == (StepView::Create { path: temp_of(path) })
            &&& parent_of(path) matches Some(parent) ==> {
                &&& all.len() == 6
                &&& all[0] == (StepView::MakeDirectory { path: parent })
                &&& all[1] == (StepView::SetMode { path: parent, mode: 0o700 })
            }
            &&& parent_of(path) is None ==> all.len() == 4
        }),
{
}

/// The temporary file lies beside the file, and the directory of a file is what it lies in.
pub proof fn a_temporary_file_lies_beside(directory: Seq<u8>, name: Seq<u8>)
    requires
        directory.len() > 0,
        path::is_name(name),
    ensures
        ({
            let file = path::with_segment(directory, name);
            &&& parent_of(file) == Some(path::spelled(path::parts_of(directory)))
            &&& temp_of(file) == path::spelled(
                path::parts_of(directory).push(PartView::Name(stem(name) + tmp())),
            )
        }),
{
    let file = path::with_segment(directory, name);
    path::a_name_lies_below_its_directory(directory, name);
    assert(path::parts_of(file).drop_last() == path::parts_of(directory));
    assert(path::parts_of(file).last() == PartView::Name(name));
}

/// The stem of a name is what stands before its last dot, unless that starts the name; a name
/// without a dot is its own stem.
pub proof fn a_stem_ends_before_the_last_dot(head: Seq<u8>, extension: Seq<u8>)
    requires
        !extension.contains(0x2e),
    ensures
        head.len() > 0 ==> stem(head.push(0x2e) + extension) == head,
        stem(extension) == extension,
        tmp() == seq![0x2eu8, 't' as u8, 'm' as u8, 'p' as u8],
{
    lemma_last_dot(head, extension);
    lemma_no_dot(extension);
    let whole = head.push(DOT) + extension;
    assert(whole.take(head.len() as int) == head);
}

proof fn lemma_last_dot(head: Seq<u8>, extension: Seq<u8>)
    requires
        !extension.contains(DOT),
    ensures
        last_byte(head.push(DOT) + extension, DOT) == head.len(),
    decreases extension.len(),
{
    let whole = head.push(DOT) + extension;
    if extension.len() == 0 {
        assert(whole == head.push(DOT));
    } else {
        let less = extension.drop_last();
        assert(extension.contains(extension.last()));
        assert forall|i: int| 0 <= i < less.len() implies less[i] != DOT by {
            assert(extension.contains(extension[i]));
        }
        assert(whole.drop_last() == head.push(DOT) + less);
        assert(whole.last() == extension.last());
        lemma_last_dot(head, less);
    }
}

proof fn lemma_no_dot(s: Seq<u8>)
    requires
        !s.contains(DOT),
    ensures
        last_byte(s, DOT) == -1,
    decreases s.len(),
{
    if s.len() > 0 {
        let less = s.drop_last();
        assert(s.contains(s.last()));
        assert forall|i: int| 0 <= i < less.len() implies less[i] != DOT by {
            assert(s.contains(s[i]));
        }
        lemma_no_dot(less);
    }
}

} // verus!
