//! Command-line tools that answer for the node: what is asked of them and what came back.
//!
//! Running a program is left to the caller, who hands in a function that does it.

use vstd::prelude::*;

use crate::text;
use crate::text::{read_lossy, trim};

verus! {

/// What a program that ran to its end left behind.
pub struct CommandOutput {
    /// Whether it reported success.
    pub success: bool,
    /// What it wrote to its standard output.
    pub stdout: Vec<u8>,
    /// What it wrote to its standard error.
    pub stderr: Vec<u8>,
}

/// What came of trying to run a program: what it left behind, or why it could not be run.
pub type Ran = Result<CommandOutput, String>;

/// Whether `came` is what the runner may have given back for these arguments.
pub open spec fn may_run<F: Fn(Vec<String>) -> Ran>(
    run: F,
    args: Seq<Seq<char>>,
    came: Ran,
) -> bool {
    exists|given: Vec<String>| #[trigger]
        given.deep_view() == args && run.ensures((given,), came)
}

/// Whether the runner takes any arguments at all.
pub open spec fn runs_anything<F: Fn(Vec<String>) -> Ran>(run: F) -> bool {
    forall|given: Vec<String>| run.requires((given,))
}

/// What a reader found, or why it found nothing.
pub open spec fn outcome<T: DeepView>(found: Result<T, String>) -> Result<T::V, Seq<char>> {
    match found {
        Ok(value) => Ok(value.deep_view()),
        Err(why) => Err(why@),
    }
}

/// What a failed program said for itself.
pub open spec fn complaint(stderr: Seq<u8>) -> Seq<char> {
    text::trimmed(text::lossy_text(stderr))
}

impl CommandOutput {
    /// What a failed program said for itself: its standard error, trimmed.
    pub fn complaint(&self) -> (out: String)
        ensures
            out@ == complaint(self.stderr@),
    {
        let said = read_lossy(&self.stderr);
        trim(said.as_str())
    }
}

/// What a program complains of is what it wrote to its standard error, without the white space
/// around it.
pub proof fn a_complaint_is_what_was_written(stderr: Seq<u8>)
    ensures
        complaint(stderr) == text::trimmed(text::lossy_text(stderr)),
{
}

/// Whatever ran was given exactly these arguments.
pub proof fn what_ran_was_given_these_arguments<F: Fn(Vec<String>) -> Ran>(
    run: F,
    args: Seq<Seq<char>>,
    came: Ran,
)
    ensures
        may_run(run, args, came) <==> exists|given: Vec<String>|
            {
                &&& given@.len() == args.len()
                &&& forall|i: int| 0 <= i < args.len() ==> (#[trigger] given@[i])@ == args[i]
                &&& #[trigger] call_ensures(run, (given,), came)
            },
{
    if may_run(run, args, came) {
        let given = choose|given: Vec<String>| #[trigger]
            given.deep_view() == args && run.ensures((given,), came);
        assert forall|i: int| 0 <= i < args.len() implies (#[trigger] given@[i])@ == args[i] by {
            assert(given.deep_view()[i] == given@[i]@);
        }
        assert(call_ensures(run, (given,), came));
    }
    if exists|given: Vec<String>|
        {
            &&& given@.len() == args.len()
            &&& forall|i: int| 0 <= i < args.len() ==> (#[trigger] given@[i])@ == args[i]
            &&& #[trigger] call_ensures(run, (given,), came)
        } {
        let given = choose|given: Vec<String>|
            {
                &&& given@.len() == args.len()
                &&& forall|i: int| 0 <= i < args.len() ==> (#[trigger] given@[i])@ == args[i]
                &&& #[trigger] call_ensures(run, (given,), came)
            };
        assert(given.deep_view() =~= args);
    }
}

/// What a reader found is shown as it is, and so is why it found nothing.
pub proof fn an_outcome_is_what_was_found<T: DeepView>(found: Result<T, String>)
    ensures
        found matches Ok(value) ==> outcome(found) == Ok::<T::V, Seq<char>>(value.deep_view()),
        found matches Err(why) ==> outcome(found) == Err::<T::V, Seq<char>>(why@),
{
}

} // verus!
