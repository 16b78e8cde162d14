//! How open carries are kept on disk.

use vstd::prelude::*;
use vstd::string::*;

verus! {

/// One step of saving a file.
pub enum StoreStep {
    /// Makes the directory that a file stands in.
    MakeParent { of: String },
    /// Writes a whole file.
    Write { to: String, text: String },
    /// Puts a file in the place of another one, at once.
    Rename { from: String, to: String },
}

/// The files by their paths. A step that fails or is cut short leaves the file that it writes to
/// in any state; a rename is done or not done.
pub open spec fn after_step(files: Map<Seq<char>, Seq<char>>, step: StoreStep) -> Map<
    Seq<char>,
    Seq<char>,
> {
    match step {
        StoreStep::MakeParent { .. } => files,
        StoreStep::Write { to, text } => files.insert(to@, text@),
        StoreStep::Rename { from, to } => files.remove(from@).insert(to@, files[from@]),
    }
}

/// The files after some steps.
pub open spec fn after_steps(files: Map<Seq<char>, Seq<char>>, steps: Seq<StoreStep>) -> Map<
    Seq<char>,
    Seq<char>,
>
    decreases steps.len(),
{
    if steps.len() == 0 {
        files
    } else {
        after_step(after_steps(files, steps.drop_last()), steps.last())
    }
}

/// The path of the file that is written before it takes the place of the old one.
pub open spec fn temporary(path: Seq<char>) -> Seq<char> {
    path + ".tmp"@
}

/// Whether some steps save a text: it is written beside the file, which is then replaced at once.
pub open spec fn saves(steps: Seq<StoreStep>, path: Seq<char>, text: Seq<char>) -> bool {
    &&& steps.len() == 3
    &&& steps[0] matches StoreStep::MakeParent { of } && of@ == path
    &&& steps[1] matches StoreStep::Write { to, text: t } && to@ == temporary(path) && t@ == text
    &&& steps[2] matches StoreStep::Rename { from, to } && from@ == temporary(path) && to@ == path
}

/// The steps that save a text.
pub fn save(path: &str, text: String) -> (r: Vec<StoreStep>)
    ensures
        saves(r@, path@, text@),
{
    let mut tmp: String = String::from_str(path);
    tmp.append(".tmp");
    let from: String = tmp.clone();
    vec![
        StoreStep::MakeParent { of: String::from_str(path) },
        StoreStep::Write { to: tmp, text },
        StoreStep::Rename { from, to: String::from_str(path) },
    ]
}

/// A file is replaced as a whole: before the last step it is what it was, whatever the steps
/// before have left of the file beside it, and after the last step it is the new text.
pub proof fn law_save_is_atomic(
    files: Map<Seq<char>, Seq<char>>,
    steps: Seq<StoreStep>,
    path: Seq<char>,
    text: Seq<char>,
    torn: Seq<char>,
)
    requires
        saves(steps, path, text),
    ensures
        after_steps(files, steps).dom().contains(path),
        after_steps(files, steps)[path] == text,
        !after_steps(files, steps).dom().contains(temporary(path)),
        forall|k: int|
            #![trigger steps.take(k)]
            0 <= k < 3 ==> {
                let now = after_steps(files, steps.take(k));
                &&& now.dom().contains(path) == files.dom().contains(path)
                &&& files.dom().contains(path) ==> now[path] == files[path]
            },
        ({
            let cut = files.insert(temporary(path), torn);
            &&& cut.dom().contains(path) == files.dom().contains(path)
            &&& files.dom().contains(path) ==> cut[path] == files[path]
        }),
{
    reveal_strlit(".tmp");
    assert(temporary(path).len() == path.len() + 4);
    assert(temporary(path) != path);
    assert(steps.take(3) =~= steps);
    assert(steps.take(3).drop_last() =~= steps.take(2));
    assert(steps.take(2).drop_last() =~= steps.take(1));
    assert(steps.take(1).drop_last() =~= steps.take(0));
    assert(after_steps(files, steps.take(0)) == files);
    assert(after_steps(files, steps.take(1)) == files);
    assert(after_steps(files, steps.take(2)) == files.insert(temporary(path), text));
}

} // verus!
