//! The note command's decisions: which notebook, which file. Creating the
//! file and asking the editor to show it are left to the caller.
use vstd::prelude::*;
use vstd::string::StringExecFns;
use crate::config::{notebook_names_unique, Settings};
use crate::daily::{moment_text, moment_to_filename, moment_writes, LocalMoment};
use crate::references::with_md_extension;

verus! {

/// Why the note command cannot name a file.
#[derive(Clone, Debug, PartialEq, Eq)]
pub enum NoteError {
    /// No notebook has the requested name.
    NotebookNotFound,
    /// The date could not be read, or the notebook's pattern could not
    /// write it; `format` is the notebook's pattern.
    UnparsableDate { format: String },
}

/// The position of the first notebook named `name`, if any.
pub open spec fn notebook_index(settings: Settings, name: Seq<char>) -> Option<int> {
    if exists|i: int| 0 <= i < settings.notebooks@.len() && #[trigger] settings.notebooks@[i].name@ == name {
        Some(choose|i: int|
            0 <= i < settings.notebooks@.len() && #[trigger] settings.notebooks@[i].name@ == name && forall|j: int|
                0 <= j < i ==> #[trigger] settings.notebooks@[j].name@ != name)
    } else {
        None
    }
}

/// The note file under `root` for a notebook with folder `folder`, whose
/// pattern wrote `filename`: the extension is always `.md`.
pub open spec fn note_file(root: Seq<char>, folder: Seq<char>, filename: Seq<char>) -> Seq<char> {
    root + "/"@ + folder + "/"@ + with_md_extension(filename)
}

fn find_notebook(settings: &Settings, name: &str) -> (r: Option<usize>)
    ensures
        r matches Some(i) ==> i < settings.notebooks@.len() && settings.notebooks@[i as int].name@ == name@
            && forall|j: int| 0 <= j < i ==> #[trigger] settings.notebooks@[j].name@ != name@,
        r is None ==> forall|j: int|
            0 <= j < settings.notebooks@.len() ==> #[trigger] settings.notebooks@[j].name@ != name@,
{
    let target = name.to_owned();
    let mut i: usize = 0;
    while i < settings.notebooks.len()
        invariant
            target@ == name@,
            0 <= i <= settings.notebooks@.len(),
            forall|j: int| 0 <= j < i ==> #[trigger] settings.notebooks@[j].name@ != name@,
        decreases settings.notebooks@.len() - i,
    {
        if settings.notebooks[i].name == target {
            return Some(i);
        }
        i = i + 1;
    }
    None
}

/// The file that the note command opens for the notebook named `notebook`
/// at the moment `moment` (`None` where the requested date could not be
/// read): the notebook of that name, its folder under `root`, the
/// filename its pattern writes for the moment, with extension `.md`. It
/// fails exactly where no notebook has the name, or the moment is missing or
/// cannot be written under the notebook's pattern.
pub fn note(root: &str, settings: &Settings, notebook: &str, moment: Option<LocalMoment>) -> (r: Result<String, NoteError>)
    requires
        notebook_names_unique(settings.notebooks@),
    ensures
        notebook_index(*settings, notebook@) is None <==> r == Err::<String, NoteError>(NoteError::NotebookNotFound),
        notebook_index(*settings, notebook@) matches Some(i) ==> {
            let nb = settings.notebooks@[i];
            let m = moment.unwrap();
            if moment is Some && moment_writes(m.day as int, m.second as int, nb.note_format@) {
                r matches Ok(path) && path@ == note_file(
                    root@,
                    nb.folder@,
                    moment_text(m.day as int, m.second as int, nb.note_format@),
                )
            } else {
                r matches Err(NoteError::UnparsableDate { format }) && format@ == nb.note_format@
            }
        },
{
    let found = find_notebook(settings, notebook);
    proof {
        match found {
            Some(i) => {
                assert(settings.notebooks@[i as int].name@ == notebook@);
                let k = notebook_index(*settings, notebook@).unwrap();
                if k < i {
                    assert(settings.notebooks@[k].name@ != notebook@);
                } else if i < k {
                    assert(settings.notebooks@[i as int].name@ != notebook@);
                }
            },
            None => {},
        }
    }
    match found {
        None => Err(NoteError::NotebookNotFound),
        Some(i) => {
            let nb = &settings.notebooks[i];
            let filename = match moment {
                Some(m) => moment_to_filename(m, nb.note_format.as_str()),
                None => None,
            };
            match filename {
                None => Err(NoteError::UnparsableDate { format: nb.note_format.clone() }),
                Some(filename) => {
                    let mut path = root.to_owned();
                    path.append("/");
                    path.append(nb.folder.as_str());
                    path.append("/");
                    let name = crate::references::md_file_name(filename.as_str());
                    path.append(name.as_str());
                    Ok(path)
                },
            }
        },
    }
}

} // verus!
