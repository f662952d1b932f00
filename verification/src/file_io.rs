//! Confines what the `file_io` capability is asked for to the configured roots.

use vstd::prelude::*;

use crate::gate;
use crate::gate::PathGate;
use crate::path;
use crate::path::{NodePath, PartView};
use crate::text;
use crate::text::read_lossy;
use crate::wire::WireError;

verus! {

/// The path gate that every path of the capability goes through.
pub struct GatedFileIo {
    pub gate: PathGate,
}

impl GatedFileIo {
    /// What the capability goes on with: the real path that is let through, as text, or the
    /// refusal.
    pub open spec fn goes_on(
        &self,
        requested: Seq<char>,
        resolved: Seq<PartView>,
        out: Result<String, WireError>,
    ) -> bool {
        match out {
            Ok(shown) => {
                &&& self.gate.admits(resolved)
                &&& shown@ == text::lossy_text(path::spelled(resolved))
            },
            Err(error) => self.gate.answers(requested, resolved, Err(error)),
        }
    }

    pub fn new(gate: PathGate) -> (out: GatedFileIo)
        ensures
            out.gate == gate,
    {
        GatedFileIo { gate }
    }

    /// Returns the approved canonical absolute path as a string. `probe` answers what a path really
    /// is: of a link whose target does not exist what it points to, and of a path at which nothing
    /// is, nothing.
    pub fn ok<F: Fn(&NodePath) -> Option<NodePath>>(&self, requested: &str, probe: F) -> (out:
        Result<String, WireError>)
        requires
            forall|asked: NodePath| #[trigger] call_requires(probe, (&asked,)),
        ensures
            exists|resolved: Seq<PartView>|
                {
                    &&& #[trigger] gate::resolves_to(
                        probe,
                        self.gate.target(requested@),
                        self.gate.target(requested@).len(),
                        resolved,
                    )
                    &&& self.goes_on(requested@, resolved, out)
                },
    {
        match self.gate.check(requested, probe) {
            Ok(path) => {
                let bytes = path.spell();
                Ok(read_lossy(&bytes))
            },
            Err(error) => Err(error),
        }
    }
}

/// What the capability goes on with lies inside a root and not inside anything denied, and it is the
/// real path of what was asked for. Whatever lies so is gone on with, and whatever does not is refused.
pub proof fn only_what_the_roots_hold_is_gone_on_with(
    io: &GatedFileIo,
    requested: Seq<char>,
    resolved: Seq<PartView>,
    out: Result<String, WireError>,
)
    requires
        io.goes_on(requested, resolved, out),
    ensures
        out is Ok <==> (exists|i: int|
            0 <= i < io.gate.roots@.len() && text::begins_with(
                resolved,
                path::parts_of(#[trigger] io.gate.roots@[i]@),
            )) && (forall|i: int|
            0 <= i < io.gate.deny@.len() ==> !text::begins_with(
                resolved,
                path::parts_of(#[trigger] io.gate.deny@[i]@),
            )),
        out matches Ok(shown) ==> shown@ == text::lossy_text(path::spelled(resolved)),
        out matches Err(error) ==> error.code is ForbiddenScope,
{
    gate::what_is_under_a_directory_has_its_parts_in_front(resolved, io.gate.roots@);
    gate::what_is_under_a_directory_has_its_parts_in_front(resolved, io.gate.deny@);
}

} // verus!
