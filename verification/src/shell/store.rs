//! Where a save goes, and in which steps it is written.

use vstd::prelude::*;

verus! {

/// The path that wins: one that was set and is not empty, else the other.
pub fn chosen_path(set: Option<String>, other: String) -> (path: String)
    ensures
        path == match set {
            Some(p) => if p@.len() > 0 {
                p
            } else {
                other
            },
            None => other,
        },
{
    match set {
        Some(p) => if p.as_str().unicode_len() > 0 {
            p
        } else {
            other
        },
        None => other,
    }
}

/// One step of writing a save.
#[derive(Clone, Debug, PartialEq, Eq)]
pub enum StoreStep {
    CreateDirs(String),
    Write(String),
    Rename { from: String, to: String },
}

/// A step as characters.
pub enum StepModel {
    CreateDirs(Seq<char>),
    Write(Seq<char>),
    Rename { from: Seq<char>, to: Seq<char> },
}

impl View for StoreStep {
    type V = StepModel;

    open spec fn view(&self) -> StepModel {
        match *self {
            StoreStep::CreateDirs(p) => StepModel::CreateDirs(p@),
            StoreStep::Write(p) => StepModel::Write(p@),
            StoreStep::Rename { from, to } => StepModel::Rename { from: from@, to: to@ },
        }
    }
}

/// The steps of writing to `path` through `temp`, in a directory that may
/// have to be made first.
pub open spec fn steps_of(parent: Option<Seq<char>>, temp: Seq<char>, path: Seq<char>) -> Seq<
    StepModel,
> {
    let write = seq![StepModel::Write(temp), StepModel::Rename { from: temp, to: path }];
    match parent {
        Some(p) => if p.len() > 0 {
            seq![StepModel::CreateDirs(p)] + write
        } else {
            write
        },
        None => write,
    }
}

pub open spec fn parent_text(parent: Option<String>) -> Option<Seq<char>> {
    match parent {
        Some(p) => Some(p@),
        None => None,
    }
}

/// The step leaves the file at `path` as it is.
pub open spec fn spares(step: StepModel, path: Seq<char>) -> bool {
    match step {
        StepModel::CreateDirs(_) => true,
        StepModel::Write(p) => p != path,
        StepModel::Rename { from, to } => from != path && to != path,
    }
}

/// Steps that write a save: its text goes to a temporary file, which then
/// takes the place of the old save.
pub fn store_steps(parent: Option<String>, temp: String, path: String) -> (steps: Vec<StoreStep>)
    ensures
        steps@.map_values(|s: StoreStep| s@) == steps_of(parent_text(parent), temp@, path@),
{
    let mut steps: Vec<StoreStep> = Vec::new();
    let ghost above = parent_text(parent);
    let ghost (t, p) = (temp@, path@);
    if let Some(dir) = parent {
        if dir.as_str().unicode_len() > 0 {
            steps.push(StoreStep::CreateDirs(dir));
        }
    }
    steps.push(StoreStep::Write(temp.clone()));
    steps.push(StoreStep::Rename { from: temp, to: path });
    assert(steps@.map_values(|s: StoreStep| s@) =~= steps_of(above, t, p));
    steps
}

/// Whatever step a save is cut short at, the old file is untouched or the
/// new one is in its place: nothing but the last step, a rename, bears on
/// the file. This needs a temporary file of another name.
pub proof fn law_saves_are_never_torn(
    parent: Option<Seq<char>>,
    temp: Seq<char>,
    path: Seq<char>,
)
    requires
        temp != path,
    ensures
        ({
            let steps = steps_of(parent, temp, path);
            &&& steps.last() == (StepModel::Rename { from: temp, to: path })
            &&& forall|k: int|
                0 <= k < steps.len() - 1 ==> spares(#[trigger] steps[k], path)
        }),
{
}

/// A save writes the temporary file and then renames it into place; before
/// that it makes the directory, where there is one to make.
pub proof fn law_saves_write_before_they_rename(
    parent: Option<Seq<char>>,
    temp: Seq<char>,
    path: Seq<char>,
)
    ensures
        ({
            let steps = steps_of(parent, temp, path);
            let n = steps.len();
            &&& n >= 2
            &&& steps[n - 2] == StepModel::Write(temp)
            &&& steps[n - 1] == (StepModel::Rename { from: temp, to: path })
            &&& parent matches Some(p) ==> p.len() > 0 ==> n == 3 && steps[0]
                == StepModel::CreateDirs(p)
            &&& parent matches Some(p) ==> p.len() == 0 ==> n == 2
            &&& parent is None ==> n == 2
        }),
{
}

} // verus!
