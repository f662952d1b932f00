//! Which directories an agent may touch, and which it may not touch even there.

use vstd::prelude::*;
use vstd::string::*;
use vstd::utf8::*;

use crate::config::Config;
use crate::env::Env;
use crate::gate;
use crate::gate::{Location, PathGate};
use crate::path;
use crate::path::{NodePath, PartView};
use crate::runtime::store;
use crate::runtime::store::credential_dir;
use crate::wire::WireError;

verus! {

/// The roots: those that are configured, or the whole file system of the container.
pub open spec fn roots_of(configured: Seq<Seq<char>>) -> Seq<Seq<u8>> {
    if configured.len() == 0 {
        seq![encode_utf8("/"@)]
    } else {
        configured.map_values(|root: Seq<char>| encode_utf8(root))
    }
}

/// What is out of reach wherever the roots are: mounted secrets, and the directory that this
/// node's own credential is kept in.
pub open spec fn denied(env: Env) -> Seq<Seq<u8>> {
    seq![
        encode_utf8("/run/secrets"@),
        encode_utf8("/var/run/secrets"@),
        store::directory(env),
    ]
}

/// Resolve the `file_io` roots. Default is the whole container filesystem; the deny list is always
/// applied so the credential directory and host mounts stay out of reach.
///
/// The credential directory comes from the same function the store writes through, so the two
/// cannot drift apart.
pub fn resolve_roots(cfg: &Config, env: &Env) -> (out: (Vec<Vec<u8>>, Vec<Vec<u8>>))
    ensures
        out.0.deep_view() == roots_of(cfg.file_roots.deep_view()),
        out.1.deep_view() == denied(*env),
{
    let mut roots: Vec<Vec<u8>> = Vec::new();
    if cfg.file_roots.len() == 0 {
        roots.push("/".as_bytes_vec());
    } else {
        let mut i: usize = 0;
        while i < cfg.file_roots.len()
            invariant
                i <= cfg.file_roots@.len(),
                roots@.len() == i,
                forall|k: int|
                    0 <= k < i ==> (#[trigger] roots@[k])@ == encode_utf8(cfg.file_roots@[k]@),
            decreases cfg.file_roots@.len() - i,
        {
            roots.push(cfg.file_roots[i].as_str().as_bytes_vec());
            i += 1;
        }
    }
    let deny = vec![
        "/run/secrets".as_bytes_vec(),
        "/var/run/secrets".as_bytes_vec(),
        credential_dir(env),
    ];
    proof {
        assert forall|k: int| 0 <= k < roots@.len() implies roots.deep_view()[k]
            == roots_of(cfg.file_roots.deep_view())[k] by {
            assert(roots@[k].deep_view() =~= roots@[k]@);
        }
        assert(roots.deep_view() =~= roots_of(cfg.file_roots.deep_view()));
        assert forall|k: int| 0 <= k < deny@.len() implies deny.deep_view()[k] == denied(
            *env,
        )[k] by {
            assert(deny@[k].deep_view() =~= deny@[k]@);
        }
        assert(deny.deep_view() =~= denied(*env));
    }
    (roots, deny)
}

/// The credential file of a deployment and profile, as it really lies on disk: in the credential
/// directory, taken for what that really is where it exists.
pub open spec fn credential_file(
    directory: Location,
    server_url: Seq<char>,
    profile: Seq<char>,
) -> Seq<PartView> {
    path::parts_of(directory.settled_bytes()).push(
        PartView::Name(encode_utf8(store::name_of(server_url, profile))),
    )
}

/// The credential file is out of reach of every gate that denies the credential directory,
/// whatever its roots are, whatever the deployment and the profile are called, and whether or not
/// the way to that directory goes over a link. Where the directory does not exist, the file is the
/// one that the store names.
pub proof fn the_credential_file_is_out_of_reach(
    gate: &PathGate,
    env: Env,
    directory: Location,
    server_url: Seq<char>,
    profile: Seq<char>,
    index: int,
    requested: Seq<char>,
    answer: Result<NodePath, WireError>,
)
    requires
        directory.given@ == store::directory(env),
        0 <= index < gate.deny@.len(),
        gate.deny@[index]@ == directory.settled_bytes(),
        gate.answers(requested, credential_file(directory, server_url, profile), answer),
    ensures
        answer is Err,
        directory.canonical is None ==> credential_file(directory, server_url, profile)
            == path::parts_of(store::located(env, server_url, profile)),
{
    let base = path::parts_of(directory.settled_bytes());
    let file = credential_file(directory, server_url, profile);
    assert(file.take(base.len() as int) == base);
    assert(path::under(file, path::parts_of(gate.deny@[index]@)));
    assert(gate::under_any(file, gate.deny@));
    store::the_credential_lies_where_the_gate_denies(env, server_url, profile);
}

/// The roots are those that are configured, each as it is, or the whole file system where none is.
/// Mounted secrets and the directory of this node's credential are denied whatever they are.
pub proof fn the_roots_are_those_configured(configured: Seq<Seq<char>>, env: Env, i: int)
    ensures
        configured.len() == 0 ==> roots_of(configured) == seq![encode_utf8("/"@)],
        configured.len() > 0 ==> roots_of(configured).len() == configured.len(),
        0 <= i < configured.len() ==> roots_of(configured)[i] == encode_utf8(configured[i]),
        denied(env).contains(encode_utf8("/run/secrets"@)),
        denied(env).contains(encode_utf8("/var/run/secrets"@)),
        denied(env).contains(store::directory(env)),
        denied(env).len() == 3,
{
    assert(denied(env)[0] == encode_utf8("/run/secrets"@));
    assert(denied(env)[1] == encode_utf8("/var/run/secrets"@));
    assert(denied(env)[2] == store::directory(env));
}

} // verus!
