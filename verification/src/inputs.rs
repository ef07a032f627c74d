//! The input files of a job: where they are put, and what is done to them there.

use vstd::prelude::*;

use crate::paths::join_path;
use crate::paths::path_join;

verus! {

/// A file that a job needs.
pub struct InputFile {
    pub file_id: String,
    pub original_name: String,
    pub is_executable: bool,
    pub is_archive: bool,
}

/// What is done to a file after it has been fetched.
#[derive(Clone, Copy, PartialEq, Eq, Structural)]
pub enum InputStep {
    /// Unpack it into the working directory and remove it.
    Unpack,
    /// Let it be run.
    MakeExecutable,
    Leave,
}

/// An archive is unpacked, even if it is also marked as a program.
pub open spec fn step_for(is_archive: bool, is_executable: bool) -> InputStep {
    if is_archive {
        InputStep::Unpack
    } else if is_executable {
        InputStep::MakeExecutable
    } else {
        InputStep::Leave
    }
}

/// A file to fetch, where to put it, and what to do to it there.
pub struct InputPlan {
    pub file_id: String,
    pub dest: String,
    pub step: InputStep,
}

pub open spec fn plan_view(p: InputPlan) -> (Seq<char>, Seq<char>, InputStep) {
    (p.file_id@, p.dest@, p.step)
}

pub open spec fn plan_of(input: InputFile, working_dir: Seq<char>) -> (
    Seq<char>,
    Seq<char>,
    InputStep,
) {
    (
        input.file_id@,
        path_join(working_dir, input.original_name@),
        step_for(input.is_archive, input.is_executable),
    )
}

/// What is done about the inputs of a job, in order.
pub fn process_inputs(inputs: &Vec<InputFile>, working_dir: &str) -> (r: Vec<InputPlan>)
    ensures
        r@.len() == inputs@.len(),
        forall|i: int|
            0 <= i < r@.len() ==> plan_view(#[trigger] r@[i]) == plan_of(
                inputs@[i],
                working_dir@,
            ),
{
    let mut r: Vec<InputPlan> = Vec::new();
    let mut i: usize = 0;
    while i < inputs.len()
        invariant
            i <= inputs@.len(),
            r@.len() == i,
            forall|k: int|
                0 <= k < i ==> plan_view(#[trigger] r@[k]) == plan_of(inputs@[k], working_dir@),
        decreases inputs@.len() - i,
    {
        let input: &InputFile = &inputs[i];
        let step: InputStep = if input.is_archive {
            InputStep::Unpack
        } else if input.is_executable {
            InputStep::MakeExecutable
        } else {
            InputStep::Leave
        };
        r.push(
            InputPlan {
                file_id: input.file_id.clone(),
                dest: join_path(working_dir, &input.original_name),
                step,
            },
        );
        i = i + 1;
    }
    r
}

/// Every input of a job is fetched into its working directory under its own name. An archive is
/// unpacked there, any other program can be run, and nothing is done to what is neither.
pub proof fn law_inputs_are_put_into_the_directory(input: InputFile, working_dir: Seq<char>)
    ensures
        plan_of(input, working_dir).0 == input.file_id@,
        crate::paths::plain_name(input.original_name@) ==> crate::paths::parts(
            plan_of(input, working_dir).1,
        ) == crate::paths::parts(working_dir).push(crate::paths::Part::Name(input.original_name@)),
        plan_of(input, working_dir).2 is Unpack <==> input.is_archive,
        plan_of(input, working_dir).2 is MakeExecutable <==> input.is_executable
            && !input.is_archive,
        plan_of(input, working_dir).2 is Leave <==> !input.is_executable && !input.is_archive,
{
    crate::paths::law_joined_names_lie_in_the_directory(working_dir, input.original_name@);
}

} // verus!
