//! The path gate.
//!
//! A tool call names a path; the path gate decides whether the node may touch it. The roots say
//! where an agent may go, the deny list says where it may not go even there.
//!
//! It compares real paths, because a comparison of spelled ones is routed around by any symbolic
//! link. What a path really is only the file system knows, so that question is handed in
//! as a function.

use vstd::prelude::*;
use vstd::string::*;

use crate::path;
use crate::path::{NodePath, Part, PartView};
use crate::text;
use crate::text::{join_with, read_lossy};
use crate::wire::{ErrorCode, WireError};

verus! {

// ---------------------------------------------------------------------------------------------
// Joining
// ---------------------------------------------------------------------------------------------

/// A path after one further part was taken.
pub open spec fn stepped(path: Seq<PartView>, part: PartView) -> Seq<PartView> {
    match part {
        PartView::Root => seq![PartView::Root],
        PartView::Current => path,
        PartView::Parent => if path.len() > 0 && !(path.last() is Root) {
            path.drop_last()
        } else if path::has_root(path) {
            path
        } else {
            path.push(PartView::Parent)
        },
        PartView::Name(name) => path.push(PartView::Name(name)),
    }
}

/// A path after a row of parts was taken, one after the other.
pub open spec fn walked(path: Seq<PartView>, parts: Seq<PartView>) -> Seq<PartView>
    decreases parts.len(),
{
    if parts.len() == 0 {
        path
    } else {
        stepped(walked(path, parts.drop_last()), parts.last())
    }
}

/// Where a requested path leads: from the root of the file system where it starts there, else
/// from the first root.
pub open spec fn joined(root: Seq<PartView>, requested: Seq<PartView>) -> Seq<PartView> {
    if path::has_root(requested) {
        walked(Seq::empty(), requested)
    } else {
        walked(root, requested)
    }
}

/// Whether a path is absolute and holds names only behind its root.
pub open spec fn settled(path: Seq<PartView>) -> bool {
    &&& path::has_root(path)
    &&& forall|i: int| 1 <= i < path.len() ==> #[trigger] path[i] is Name
}

/// What a request leads to holds no `.` and no `..`, where the root it starts from holds none and
/// is absolute.
pub proof fn joining_leaves_no_dots(root: Seq<PartView>, requested: Seq<PartView>)
    requires
        settled(root),
        path::valid(requested),
    ensures
        settled(joined(root, requested)),
{
    if path::has_root(requested) {
        lemma_walking_from_the_root_settles(Seq::empty(), requested);
    } else {
        lemma_walking_stays_settled(root, requested);
    }
}

proof fn lemma_walking_stays_settled(path: Seq<PartView>, parts: Seq<PartView>)
    requires
        settled(path),
    ensures
        settled(walked(path, parts)),
    decreases parts.len(),
{
    if parts.len() > 0 {
        lemma_walking_stays_settled(path, parts.drop_last());
    }
}

proof fn lemma_walking_from_the_root_settles(path: Seq<PartView>, parts: Seq<PartView>)
    requires
        path::has_root(parts),
    ensures
        settled(walked(path, parts)),
    decreases parts.len(),
{
    if parts.len() > 1 {
        lemma_walking_from_the_root_settles(path, parts.drop_last());
    }
}

/// Takes one further part.
fn step(path: NodePath, part: &Part) -> (out: NodePath)
    ensures
        out@ == stepped(path@, part.deep_view()),
{
    let ghost before = path@;
    let mut out = path;
    match part {
        Part::Root => {
            let mut parts: Vec<Part> = Vec::new();
            parts.push(Part::Root);
            out = NodePath { parts };
            assert(out@ == seq![PartView::Root]);
        },
        Part::Current => {},
        Part::Parent => {
            let n: usize = out.parts.len();
            let popped = n > 0 && match &out.parts[n - 1] {
                Part::Root => false,
                _ => true,
            };
            let rooted = n > 0 && match &out.parts[0] {
                Part::Root => true,
                _ => false,
            };
            assert(rooted == path::has_root(before));
            if popped {
                out = out.prefix(n - 1);
            } else if !rooted {
                out.parts.push(Part::Parent);
                assert(out@ == before.push(PartView::Parent));
            }
        },
        Part::Name(name) => {
            let copied = name.clone();
            assert(copied@ == name@);
            out.parts.push(Part::Name(copied));
            assert(out@ == before.push(PartView::Name(name@)));
        },
    }
    out
}

/// Joins a requested path to a root by the rules that the layer below opens files with: a check
/// of one path means nothing for another.
pub fn join_like_upstream(root: &NodePath, path: &str) -> (out: NodePath)
    ensures
        out@ == joined(root@, path::parts_of(path.spec_bytes())),
{
    let requested = NodePath::parse(path.as_bytes());
    let absolute = requested.parts.len() > 0 && match &requested.parts[0] {
        Part::Root => true,
        _ => false,
    };
    assert(absolute == path::has_root(requested@));
    let mut out = if absolute {
        NodePath { parts: Vec::new() }
    } else {
        root.copy()
    };
    let ghost start = out@;
    assert(absolute ==> start == Seq::<PartView>::empty());
    assert(requested@.take(0) == Seq::<PartView>::empty());
    let mut i: usize = 0;
    while i < requested.parts.len()
        invariant
            i <= requested@.len(),
            out@ == walked(start, requested@.take(i as int)),
        decreases requested@.len() - i,
    {
        let ghost so_far = requested@.take(i + 1);
        assert(so_far.drop_last() == requested@.take(i as int));
        assert(so_far.last() == requested.parts@[i as int].deep_view());
        out = step(out, &requested.parts[i]);
        i += 1;
    }
    assert(requested@.take(requested@.len() as int) == requested@);
    out
}

// ---------------------------------------------------------------------------------------------
// Resolving
// ---------------------------------------------------------------------------------------------

/// Whether `found` is what resolving the first `kept` parts of `path` comes to, where `probe`
/// answers what a path really is. Of a symbolic link whose target does not exist it answers what
/// the link points to, and of a path at which there is not even a link, nothing.
///
/// The deepest ancestor that exists is replaced by its real path and the rest stays as it was
/// spelled. Where no ancestor exists, or one that does not exist ends in something other than a
/// name, the path is left alone.
pub open spec fn resolves_to<F: Fn(&NodePath) -> Option<NodePath>>(
    probe: F,
    path: Seq<PartView>,
    kept: nat,
    found: Seq<PartView>,
) -> bool
    decreases kept,
{
    ||| exists|asked: NodePath, answer: NodePath|
        {
            &&& asked@ == path.take(kept as int)
            &&& #[trigger] call_ensures(probe, (&asked,), Some(answer))
            &&& found == answer@ + path.skip(kept as int)
        }
    ||| {
        &&& exists|asked: NodePath|
            {
                &&& asked@ == path.take(kept as int)
                &&& #[trigger] call_ensures(probe, (&asked,), None)
            }
        &&& if kept > 0 && path[kept - 1] is Name {
            resolves_to(probe, path, (kept - 1) as nat, found)
        } else {
            found == path
        }
    }
}

/// Really resolves the deepest ancestor that exists, then puts the rest behind it unchanged.
///
/// A file about to be written does not exist yet, so asking for its real path fails and would
/// refuse every write. Resolving the ancestor still follows the links that lead out of a root,
/// those that point to a file that is not there yet among them: writing through such a link makes
/// that file.
pub fn canonicalize_deepest<F: Fn(&NodePath) -> Option<NodePath>>(
    path: &NodePath,
    probe: F,
) -> (found: NodePath)
    requires
        forall|asked: NodePath| #[trigger] call_requires(probe, (&asked,)),
    ensures
        resolves_to(probe, path@, path@.len(), found@),
{
    let mut kept: usize = path.parts.len();
    loop
        invariant
            kept <= path@.len(),
            forall|asked: NodePath| #[trigger] call_requires(probe, (&asked,)),
            forall|found: Seq<PartView>|
                resolves_to(probe, path@, kept as nat, found) ==> #[trigger] resolves_to(
                    probe,
                    path@,
                    path@.len(),
                    found,
                ),
        decreases kept,
    {
        let asked = path.prefix(kept);
        match probe(&asked) {
            Some(mut answer) => {
                let ghost start = answer@;
                assert(call_ensures(probe, (&asked,), Some(answer)));
                let ghost answered = answer;
                let mut i: usize = kept;
                assert(start + path@.subrange(kept as int, kept as int) == start);
                while i < path.parts.len()
                    invariant
                        kept <= i <= path@.len(),
                        answer@ == start + path@.subrange(kept as int, i as int),
                    decreases path@.len() - i,
                {
                    let ghost before = answer@;
                    let part = path.parts[i].copy();
                    answer.parts.push(part);
                    assert(answer@ == before.push(path@[i as int]));
                    i += 1;
                    assert(start + path@.subrange(kept as int, i as int) == (start
                        + path@.subrange(kept as int, i - 1)).push(path@[i - 1]));
                }
                assert(path@.subrange(kept as int, path@.len() as int) == path@.skip(kept as int));
                assert(resolves_to(probe, path@, kept as nat, answer@));
                return answer;
            },
            None => {
                assert(call_ensures(probe, (&asked,), None));
                let named = kept > 0 && match &path.parts[kept - 1] {
                    Part::Name(_) => true,
                    _ => false,
                };
                assert(named == (kept > 0 && path@[kept - 1] is Name));
                if !named {
                    let out = path.copy();
                    assert(resolves_to(probe, path@, kept as nat, out@));
                    return out;
                }
                kept -= 1;
            },
        }
    }
}

/// Whether `found` is what one further part of a link's target leads to, where `probe` answers
/// what a path really is, or nothing where there is nothing.
pub open spec fn follows_to<F: Fn(&NodePath) -> Option<NodePath>>(
    probe: F,
    at: Seq<PartView>,
    part: PartView,
    found: Seq<PartView>,
) -> bool {
    if part is Name {
        exists|asked: NodePath, answer: Option<NodePath>|
            {
                &&& asked@ == stepped(at, part)
                &&& #[trigger] call_ensures(probe, (&asked,), answer)
                &&& found == match answer {
                    Some(answer) => answer@,
                    None => stepped(at, part),
                }
            }
    } else {
        found == stepped(at, part)
    }
}

/// Whether `found` is what a link in the real directory `directory` points to, where `target` is
/// what the link holds. Each name is looked up before the next part is taken, so that a `..` leads
/// up from where the names before it really lead.
pub open spec fn points_to<F: Fn(&NodePath) -> Option<NodePath>>(
    probe: F,
    directory: Seq<PartView>,
    target: Seq<PartView>,
    found: Seq<PartView>,
) -> bool
    decreases target.len(),
{
    if target.len() == 0 {
        found == directory
    } else {
        exists|at: Seq<PartView>|
            {
                &&& points_to(probe, directory, target.drop_last(), at)
                &&& #[trigger] follows_to(probe, at, target.last(), found)
            }
    }
}

/// Finds out what a link points to, given the real directory it lies in and what it holds. What it
/// points to need not exist.
pub fn follow_link<F: Fn(&NodePath) -> Option<NodePath>>(
    directory: &NodePath,
    target: &NodePath,
    probe: F,
) -> (found: NodePath)
    requires
        forall|asked: NodePath| #[trigger] call_requires(probe, (&asked,)),
    ensures
        points_to(probe, directory@, target@, found@),
{
    let mut found = directory.copy();
    let mut i: usize = 0;
    assert(target@.take(0).len() == 0);
    while i < target.parts.len()
        invariant
            i <= target@.len(),
            forall|asked: NodePath| #[trigger] call_requires(probe, (&asked,)),
            points_to(probe, directory@, target@.take(i as int), found@),
        decreases target@.len() - i,
    {
        let ghost at = found@;
        let ghost so_far = target@.take(i + 1);
        assert(so_far.drop_last() == target@.take(i as int));
        assert(so_far.last() == target.parts@[i as int].deep_view());
        let named = match &target.parts[i] {
            Part::Name(_) => true,
            _ => false,
        };
        let asked = step(found, &target.parts[i]);
        if named {
            let answer = probe(&asked);
            assert(call_ensures(probe, (&asked,), answer));
            found = match answer {
                Some(answer) => answer,
                None => asked,
            };
        } else {
            found = asked;
        }
        assert(follows_to(probe, at, so_far.last(), found@));
        assert(points_to(probe, directory@, so_far.drop_last(), at));
        assert(points_to(probe, directory@, so_far, found@));
        i += 1;
    }
    assert(target@.take(target@.len() as int) == target@);
    found
}

// ---------------------------------------------------------------------------------------------
// The path gate
// ---------------------------------------------------------------------------------------------

/// A directory as it was configured, and what it really is where there is something at it. A link
/// is what it points to.
pub struct Location {
    pub given: Vec<u8>,
    pub canonical: Option<Vec<u8>>,
}

impl Location {
    /// The bytes to compare with: the real path where there is one.
    pub open spec fn settled_bytes(&self) -> Seq<u8> {
        match self.canonical {
            Some(bytes) => bytes@,
            None => self.given@,
        }
    }
}

/// The directories an agent may touch, and those it may not.
pub struct PathGate {
    pub roots: Vec<Vec<u8>>,
    pub deny: Vec<Vec<u8>>,
}

/// Whether a path is at or below one of the given directories.
pub open spec fn under_any(path: Seq<PartView>, directories: Seq<Vec<u8>>) -> bool {
    exists|i: int|
        0 <= i < directories.len() && path::under(path, path::parts_of(#[trigger] directories[i]@))
}

/// Whether a path is at or below one of the given directories.
fn is_under_any(resolved: &NodePath, directories: &Vec<Vec<u8>>) -> (yes: bool)
    ensures
        yes == under_any(resolved@, directories@),
{
    let mut i: usize = 0;
    while i < directories.len()
        invariant
            i <= directories@.len(),
            forall|k: int|
                0 <= k < i ==> !path::under(
                    resolved@,
                    path::parts_of(#[trigger] directories@[k]@),
                ),
        decreases directories@.len() - i,
    {
        let base = NodePath::parse(directories[i].as_slice());
        if resolved.is_under(&base) {
            return true;
        }
        i += 1;
    }
    false
}

fn settle(locations: Vec<Location>) -> (out: Vec<Vec<u8>>)
    ensures
        out@.len() == locations@.len(),
        forall|i: int|
            0 <= i < out@.len() ==> (#[trigger] out@[i])@ == locations@[i].settled_bytes(),
{
    let mut out: Vec<Vec<u8>> = Vec::new();
    let mut i: usize = 0;
    while i < locations.len()
        invariant
            i <= locations@.len(),
            out@.len() == i,
            forall|k: int|
                0 <= k < i ==> (#[trigger] out@[k])@ == locations@[k].settled_bytes(),
        decreases locations@.len() - i,
    {
        let bytes = match &locations[i].canonical {
            Some(bytes) => bytes.clone(),
            None => locations[i].given.clone(),
        };
        assert(bytes@ == locations@[i as int].settled_bytes());
        out.push(bytes);
        i += 1;
    }
    out
}

/// What a refused path is answered.
pub open spec fn refusal(
    requested: Seq<char>,
    why: Seq<char>,
    shown: Seq<Seq<char>>,
) -> Seq<char> {
    requested + ": "@ + why + ". Paths this node allows: "@ + text::joined_with(shown, ", "@)
}

/// What a refused path is answered, given how each root is shown.
pub fn refusal_text(requested: &str, why: &str, shown: &Vec<String>) -> (out: String)
    ensures
        out@ == refusal(requested@, why@, shown.deep_view()),
{
    let mut out = requested.to_owned();
    out.append(": ");
    out.append(why);
    out.append(". Paths this node allows: ");
    out.append(join_with(shown, ", ").as_str());
    out
}

impl PathGate {
    /// How the roots are shown.
    pub open spec fn shown_roots(&self) -> Seq<Seq<char>> {
        Seq::new(self.roots@.len(), |i: int| text::lossy_text(self.roots@[i]@))
    }

    /// The directory that a relative path starts from.
    pub open spec fn root_bytes(&self) -> Seq<u8> {
        if self.roots@.len() == 0 {
            seq![path::SLASH]
        } else {
            self.roots@[0]@
        }
    }

    /// Whether a real path is let through: below a root, and not below anything denied.
    pub open spec fn admits(&self, resolved: Seq<PartView>) -> bool {
        under_any(resolved, self.roots@) && !under_any(resolved, self.deny@)
    }

    /// Where a requested path leads before links are followed.
    pub open spec fn target(&self, requested: Seq<char>) -> Seq<PartView> {
        joined(
            path::parts_of(self.root_bytes()),
            path::parts_of(vstd::utf8::encode_utf8(requested)),
        )
    }

    /// What is answered to a request that leads to the real path `resolved`.
    pub open spec fn answers(
        &self,
        requested: Seq<char>,
        resolved: Seq<PartView>,
        answer: Result<NodePath, WireError>,
    ) -> bool {
        match answer {
            Ok(path) => self.admits(resolved) && path@ == resolved,
            Err(error) => {
                &&& !self.admits(resolved)
                &&& error.code is ForbiddenScope
                &&& error.message@ == refusal(
                    requested,
                    if under_any(resolved, self.deny@) {
                        "is on the deny list"@
                    } else {
                        "is outside the allowed roots"@
                    },
                    self.shown_roots(),
                )
            },
        }
    }

    /// A gate over the given directories, each taken for what it really is where it exists.
    pub fn new(roots: Vec<Location>, deny: Vec<Location>) -> (gate: PathGate)
        ensures
            gate.roots@.len() == roots@.len(),
            gate.deny@.len() == deny@.len(),
            forall|i: int|
                0 <= i < roots@.len() ==> (#[trigger] gate.roots@[i])@ == roots@[i].settled_bytes(),
            forall|i: int|
                0 <= i < deny@.len() ==> (#[trigger] gate.deny@[i])@ == deny@[i].settled_bytes(),
    {
        PathGate { roots: settle(roots), deny: settle(deny) }
    }

    /// The directory that a relative path starts from: the first root, or the root of the file
    /// system where there is none.
    pub fn root(&self) -> (out: Vec<u8>)
        ensures
            out@ == self.root_bytes(),
    {
        if self.roots.len() == 0 {
            let mut out: Vec<u8> = Vec::new();
            out.push(path::SLASH);
            assert(out@ == seq![path::SLASH]);
            out
        } else {
            let out = self.roots[0].clone();
            assert(out@ == self.roots@[0]@);
            out
        }
    }

    /// The refusal of a path, with the allowed roots in it.
    pub fn refuse(&self, requested: &str, why: &str) -> (error: WireError)
        ensures
            error.code is ForbiddenScope,
            error.message@ == refusal(requested@, why@, self.shown_roots()),
    {
        let mut shown: Vec<String> = Vec::new();
        let mut i: usize = 0;
        while i < self.roots.len()
            invariant
                i <= self.roots@.len(),
                shown@.len() == i,
                forall|k: int|
                    0 <= k < i ==> (#[trigger] shown@[k])@ == text::lossy_text(self.roots@[k]@),
            decreases self.roots@.len() - i,
        {
            shown.push(read_lossy(&self.roots[i]));
            i += 1;
        }
        assert(shown.deep_view() == self.shown_roots());
        WireError::new(ErrorCode::ForbiddenScope, refusal_text(requested, why, &shown))
    }

    /// Decides about a request whose real path is known.
    pub fn check_resolved(&self, requested: &str, resolved: NodePath) -> (answer: Result<
        NodePath,
        WireError,
    >)
        ensures
            self.answers(requested@, resolved@, answer),
    {
        if is_under_any(&resolved, &self.deny) {
            return Err(self.refuse(requested, "is on the deny list"));
        }
        if !is_under_any(&resolved, &self.roots) {
            return Err(self.refuse(requested, "is outside the allowed roots"));
        }
        Ok(resolved)
    }

    /// Decides about a request. `probe` answers what a path really is: of a link whose target does
    /// not exist what it points to, and of a path at which nothing is, nothing.
    pub fn check<F: Fn(&NodePath) -> Option<NodePath>>(
        &self,
        requested: &str,
        probe: F,
    ) -> (answer: Result<NodePath, WireError>)
        requires
            forall|asked: NodePath| #[trigger] call_requires(probe, (&asked,)),
        ensures
            exists|resolved: Seq<PartView>|
                {
                    &&& #[trigger] resolves_to(
                        probe,
                        self.target(requested@),
                        self.target(requested@).len(),
                        resolved,
                    )
                    &&& self.answers(requested@, resolved, answer)
                },
    {
        let root = NodePath::parse(self.root().as_slice());
        let target = join_like_upstream(&root, requested);
        let resolved = canonicalize_deepest(&target, probe);
        let ghost found = resolved@;
        let answer = self.check_resolved(requested, resolved);
        assert(resolves_to(probe, self.target(requested@), self.target(requested@).len(), found));
        answer
    }
}

// ---------------------------------------------------------------------------------------------
// What the path gate keeps to
// ---------------------------------------------------------------------------------------------

/// A path that is let through is below a root and below nothing that is denied, whatever was asked
/// for and whatever the file system answered.
pub proof fn what_passes_is_inside_a_root_and_not_denied(
    gate: &PathGate,
    requested: Seq<char>,
    resolved: Seq<PartView>,
    passed: NodePath,
)
    requires
        gate.answers(requested, resolved, Ok(passed)),
    ensures
        under_any(passed@, gate.roots@),
        !under_any(passed@, gate.deny@),
{
}

/// The deny list wins over the roots: a path below something denied is refused even where it is
/// below a root.
pub proof fn deny_wins_over_roots(
    gate: &PathGate,
    requested: Seq<char>,
    resolved: Seq<PartView>,
    answer: Result<NodePath, WireError>,
)
    requires
        under_any(resolved, gate.deny@),
        gate.answers(requested, resolved, answer),
    ensures
        answer is Err,
{
}

/// A path below a root that nothing exists of yet passes unchanged, where the root is real and
/// nothing on the way is denied: a new file can be written.
pub proof fn a_path_that_does_not_exist_yet_passes<F: Fn(&NodePath) -> Option<NodePath>>(
    gate: &PathGate,
    probe: F,
    root: int,
    path: Seq<PartView>,
    kept: nat,
    resolved: Seq<PartView>,
)
    requires
        0 <= root < gate.roots@.len(),
        path::under(path, path::parts_of(gate.roots@[root]@)),
        path::parts_of(gate.roots@[root]@).len() <= kept <= path.len(),
        forall|i: int|
            path::parts_of(gate.roots@[root]@).len() <= i < path.len() ==> #[trigger] path[i] is Name,
        forall|asked: NodePath, answer: Option<NodePath>| #[trigger]
            call_ensures(probe, (&asked,), answer) ==> if asked@ == path::parts_of(
                gate.roots@[root]@,
            ) {
                answer matches Some(found) && found@ == asked@
            } else {
                answer is None
            },
        !under_any(path, gate.deny@),
        resolves_to(probe, path, kept, resolved),
    ensures
        resolved == path,
        gate.admits(resolved),
    decreases kept,
{
    let base = path::parts_of(gate.roots@[root]@);
    if kept == base.len() {
        assert(path.take(kept as int) == base);
        assert(base + path.skip(kept as int) == path);
    } else {
        assert(path.take(kept as int).len() != base.len());
        assert(path[kept - 1] is Name);
        a_path_that_does_not_exist_yet_passes(
            gate,
            probe,
            root,
            path,
            (kept - 1) as nat,
            resolved,
        );
    }
}

/// A path that goes through a link is refused where what the link points to, with the rest of the
/// path behind it, is below no root, even where the link itself lies below one. It makes no
/// difference whether what the link points to exists.
pub proof fn a_link_that_leads_out_is_refused<F: Fn(&NodePath) -> Option<NodePath>>(
    gate: &PathGate,
    probe: F,
    requested: Seq<char>,
    link: nat,
    pointed: Seq<PartView>,
    resolved: Seq<PartView>,
    answer: Result<NodePath, WireError>,
)
    requires
        link <= gate.target(requested).len(),
        forall|i: int|
            link <= i < gate.target(requested).len() ==> #[trigger] gate.target(requested)[i]
                is Name,
        forall|asked: NodePath, found: Option<NodePath>| #[trigger]
            call_ensures(probe, (&asked,), found) ==> if asked@ == gate.target(requested).take(
                link as int,
            ) {
                found matches Some(found) && found@ == pointed
            } else {
                found is None
            },
        !under_any(pointed + gate.target(requested).skip(link as int), gate.roots@),
        resolves_to(probe, gate.target(requested), gate.target(requested).len(), resolved),
        gate.answers(requested, resolved, answer),
    ensures
        answer is Err,
{
    lemma_resolving_stops_at_the_link(
        probe,
        gate.target(requested),
        link,
        gate.target(requested).len(),
        pointed,
        resolved,
    );
}

proof fn lemma_resolving_stops_at_the_link<F: Fn(&NodePath) -> Option<NodePath>>(
    probe: F,
    path: Seq<PartView>,
    link: nat,
    kept: nat,
    pointed: Seq<PartView>,
    resolved: Seq<PartView>,
)
    requires
        link <= kept <= path.len(),
        forall|i: int| link <= i < path.len() ==> #[trigger] path[i] is Name,
        forall|asked: NodePath, found: Option<NodePath>| #[trigger]
            call_ensures(probe, (&asked,), found) ==> if asked@ == path.take(link as int) {
                found matches Some(found) && found@ == pointed
            } else {
                found is None
            },
        resolves_to(probe, path, kept, resolved),
    ensures
        resolved == pointed + path.skip(link as int),
    decreases kept,
{
    if kept > link {
        assert(path.take(kept as int).len() != path.take(link as int).len());
        assert(path[kept - 1] is Name);
        lemma_resolving_stops_at_the_link(
            probe,
            path,
            link,
            (kept - 1) as nat,
            pointed,
            resolved,
        );
    }
}

/// A path counts as under some directories exactly where the parts of one of them stand in front of
/// it. So one with fewer parts than each of them is under none: a directory is not taken for what
/// lies in it, nor for what lies beside it.
pub proof fn what_is_under_a_directory_has_its_parts_in_front(
    path: Seq<PartView>,
    directories: Seq<Vec<u8>>,
)
    ensures
        under_any(path, directories) <==> exists|i: int|
            0 <= i < directories.len() && text::begins_with(
                path,
                path::parts_of(#[trigger] directories[i]@),
            ),
        (forall|i: int|
            0 <= i < directories.len() ==> path.len() < path::parts_of(
                #[trigger] directories[i]@,
            ).len()) ==> !under_any(path, directories),
        forall|i: int, rest: Seq<PartView>|
            0 <= i < directories.len() && path == #[trigger] (path::parts_of(directories[i]@) + rest)
                ==> under_any(path, directories),
{
    assert forall|i: int, rest: Seq<PartView>|
        0 <= i < directories.len() && path == #[trigger] (path::parts_of(directories[i]@)
            + rest) implies under_any(path, directories) by {
        text::a_prefix_has_a_rest(path, path::parts_of(directories[i]@));
        assert(path::under(path, path::parts_of(directories[i]@)));
    }
    if exists|i: int|
        0 <= i < directories.len() && text::begins_with(
            path,
            path::parts_of(#[trigger] directories[i]@),
        ) {
        let i = choose|i: int|
            0 <= i < directories.len() && text::begins_with(
                path,
                path::parts_of(#[trigger] directories[i]@),
            );
        assert(path::under(path, path::parts_of(directories[i]@)));
    }
    if under_any(path, directories) {
        let i = choose|i: int|
            0 <= i < directories.len() && path::under(
                path,
                path::parts_of(#[trigger] directories[i]@),
            );
        path::what_lies_below_has_its_parts_behind(path, path::parts_of(directories[i]@));
        assert(text::begins_with(path, path::parts_of(directories[i]@)));
    }
}

/// A root is itself let through where every denied directory lies deeper, and so is whatever lies
/// below it but not below one of those.
pub proof fn a_root_above_what_is_denied_passes(
    gate: &PathGate,
    requested: Seq<char>,
    root: int,
    rest: Seq<PartView>,
    answer: Result<NodePath, WireError>,
)
    requires
        0 <= root < gate.roots@.len(),
        forall|i: int|
            0 <= i < gate.deny@.len() ==> !text::begins_with(
                path::parts_of(gate.roots@[root]@) + rest,
                path::parts_of(#[trigger] gate.deny@[i]@),
            ),
        gate.answers(requested, path::parts_of(gate.roots@[root]@) + rest, answer),
    ensures
        answer matches Ok(passed) && passed@ == path::parts_of(gate.roots@[root]@) + rest,
{
    let path = path::parts_of(gate.roots@[root]@) + rest;
    what_is_under_a_directory_has_its_parts_in_front(path, gate.roots@);
    what_is_under_a_directory_has_its_parts_in_front(path, gate.deny@);
}

/// A path that no root stands in front of is refused as being outside, and one that a denied
/// directory stands in front of as being denied, each with the request and the allowed roots in what
/// is said.
pub proof fn what_is_outside_or_denied_is_refused(
    gate: &PathGate,
    requested: Seq<char>,
    resolved: Seq<PartView>,
    answer: Result<NodePath, WireError>,
)
    requires
        gate.answers(requested, resolved, answer),
    ensures
        (exists|i: int|
            0 <= i < gate.deny@.len() && text::begins_with(
                resolved,
                path::parts_of(#[trigger] gate.deny@[i]@),
            )) ==> {
            &&& answer matches Err(error)
            &&& error.code is ForbiddenScope
            &&& error.message@ == requested + ": "@ + "is on the deny list"@
                + ". Paths this node allows: "@ + text::joined_with(gate.shown_roots(), ", "@)
        },
        (forall|i: int|
            0 <= i < gate.deny@.len() ==> !text::begins_with(
                resolved,
                path::parts_of(#[trigger] gate.deny@[i]@),
            )) && (forall|i: int|
            0 <= i < gate.roots@.len() ==> !text::begins_with(
                resolved,
                path::parts_of(#[trigger] gate.roots@[i]@),
            )) ==> {
            &&& answer matches Err(error)
            &&& error.code is ForbiddenScope
            &&& error.message@ == requested + ": "@ + "is outside the allowed roots"@
                + ". Paths this node allows: "@ + text::joined_with(gate.shown_roots(), ", "@)
        },
        gate.shown_roots().len() == gate.roots@.len(),
        forall|i: int|
            0 <= i < gate.roots@.len() ==> #[trigger] gate.shown_roots()[i] == text::lossy_text(
                gate.roots@[i]@,
            ),
{
    what_is_under_a_directory_has_its_parts_in_front(resolved, gate.roots@);
    what_is_under_a_directory_has_its_parts_in_front(resolved, gate.deny@);
}

/// A request is walked part by part from the first root, or from the root of the file system where
/// it starts there: a name leads into it, a `..` back out of it, and a `.` nowhere. Above the root of
/// the file system there is nothing.
pub proof fn a_request_is_walked_part_by_part(
    root: Seq<PartView>,
    requested: Seq<PartView>,
    name: Seq<u8>,
)
    requires
        requested.len() > 0,
    ensures
        joined(root, requested.push(PartView::Name(name))) == joined(root, requested).push(
            PartView::Name(name),
        ),
        joined(root, requested.push(PartView::Name(name)).push(PartView::Parent)) == joined(
            root,
            requested,
        ),
        joined(root, requested.push(PartView::Current)) == joined(root, requested),
        joined(root, seq![PartView::Name(name)]) == root.push(PartView::Name(name)),
        joined(root, Seq::empty()) == root,
        joined(root, seq![PartView::Root]) == seq![PartView::Root],
        joined(root, seq![PartView::Root, PartView::Parent]) == seq![PartView::Root],
        joined(root, seq![PartView::Root, PartView::Name(name)]) == seq![
            PartView::Root,
            PartView::Name(name),
        ],
        path::has_root(requested) ==> joined(root, requested) == joined(Seq::empty(), requested),
        root.len() > 0 && root.last() is Name ==> joined(root, seq![PartView::Parent])
            == root.drop_last(),
{
    reveal_with_fuel(walked, 4);
    let start = if path::has_root(requested) {
        Seq::<PartView>::empty()
    } else {
        root
    };
    let named = requested.push(PartView::Name(name));
    let back = named.push(PartView::Parent);
    let still = requested.push(PartView::Current);
    assert(named.drop_last() == requested && back.drop_last() == named && still.drop_last()
        == requested);
    assert(named[0] == requested[0] && back[0] == requested[0] && still[0] == requested[0]);
    let there = walked(start, requested);
    assert(there.push(PartView::Name(name)).drop_last() == there);
    let one = seq![PartView::Name(name)];
    assert(one.drop_last() == Seq::<PartView>::empty());
    let up = seq![PartView::Parent];
    assert(up.drop_last() == Seq::<PartView>::empty());
    let top = seq![PartView::Root];
    assert(top.drop_last() == Seq::<PartView>::empty());
    let over = seq![PartView::Root, PartView::Parent];
    assert(over.drop_last() == top);
    let below = seq![PartView::Root, PartView::Name(name)];
    assert(below.drop_last() == top);
    assert(top.push(PartView::Name(name)) == below);
}

/// A path that exists is resolved to what it really is, and decided about by that.
pub proof fn what_exists_is_taken_for_what_it_is<F: Fn(&NodePath) -> Option<NodePath>>(
    probe: F,
    path: Seq<PartView>,
    real_path: Seq<PartView>,
    resolved: Seq<PartView>,
)
    requires
        forall|asked: NodePath, found: Option<NodePath>|
            asked@ == path && #[trigger] call_ensures(probe, (&asked,), found) ==> found is Some
                && found->0@ == real_path,
        resolves_to(probe, path, path.len(), resolved),
    ensures
        resolved == real_path,
{
    assert(path.take(path.len() as int) == path);
    assert(path.skip(path.len() as int) == Seq::<PartView>::empty());
    assert(real_path + Seq::<PartView>::empty() == real_path);
}

/// A directory is compared by what it really is where that is known, else as it was configured; and
/// a relative request starts from the first root, or from the root of the file system.
pub proof fn a_directory_is_taken_for_what_it_is(location: Location, gate: &PathGate)
    ensures
        location.canonical matches Some(found) ==> location.settled_bytes() == found@,
        location.canonical is None ==> location.settled_bytes() == location.given@,
        gate.roots@.len() > 0 ==> gate.root_bytes() == gate.roots@[0]@,
        gate.roots@.len() == 0 ==> gate.root_bytes() == seq![0x2fu8],
{
}

/// An absolute request leads to the same place at every gate, and an empty one to where relative
/// requests start.
pub proof fn an_absolute_request_is_the_same_at_every_gate(
    gate: &PathGate,
    other: &PathGate,
    requested: Seq<char>,
)
    ensures
        vstd::utf8::encode_utf8(requested).len() > 0 && vstd::utf8::encode_utf8(requested)[0] == 0x2f
            ==> gate.target(requested) == other.target(requested),
        vstd::utf8::encode_utf8(requested).len() == 0 ==> gate.target(requested) == path::parts_of(
            gate.root_bytes(),
        ),
{
    let bytes = vstd::utf8::encode_utf8(requested);
    path::a_path_starts_with_the_root_or_a_segment(bytes, Seq::empty());
    if bytes.len() == 0 {
        assert(bytes == Seq::<u8>::empty());
        assert(path::parts_of(bytes) == Seq::<PartView>::empty());
    }
}

/// What a link that leads through nothing else points to is where its target leads from its
/// directory, whether or not that exists.
pub proof fn a_link_points_where_its_target_leads<F: Fn(&NodePath) -> Option<NodePath>>(
    probe: F,
    directory: Seq<PartView>,
    target: Seq<PartView>,
    found: Seq<PartView>,
)
    requires
        forall|asked: NodePath, answer: Option<NodePath>| #[trigger]
            call_ensures(probe, (&asked,), answer) ==> answer is None || answer->0@ == asked@,
        points_to(probe, directory, target, found),
    ensures
        found == walked(directory, target),
    decreases target.len(),
{
    if target.len() > 0 {
        let at = choose|at: Seq<PartView>|
            {
                &&& points_to(probe, directory, target.drop_last(), at)
                &&& #[trigger] follows_to(probe, at, target.last(), found)
            };
        a_link_points_where_its_target_leads(probe, directory, target.drop_last(), at);
    }
}

/// What a link's target names is followed where it leads somewhere else.
pub proof fn a_link_is_followed_through_others<F: Fn(&NodePath) -> Option<NodePath>>(
    probe: F,
    directory: Seq<PartView>,
    name: Seq<u8>,
    elsewhere: Seq<PartView>,
    found: Seq<PartView>,
)
    requires
        forall|asked: NodePath, answer: Option<NodePath>|
            asked@ == directory.push(PartView::Name(name)) && #[trigger] call_ensures(
                probe,
                (&asked,),
                answer,
            ) ==> answer is Some && answer->0@ == elsewhere,
        points_to(probe, directory, seq![PartView::Name(name)], found),
    ensures
        found == elsewhere,
{
    let target = seq![PartView::Name(name)];
    let at = choose|at: Seq<PartView>|
        {
            &&& points_to(probe, directory, target.drop_last(), at)
            &&& #[trigger] follows_to(probe, at, target.last(), found)
        };
    assert(target.drop_last().len() == 0);
    assert(at == directory);
}

} // verus!
