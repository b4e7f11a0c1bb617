//! The `init` command: where a new catalogue database is created.

use vstd::prelude::*;

verus! {

/// The reason an initialisation could not start.
#[derive(Debug, PartialEq, Eq, Structural)]
pub enum InitError {
    NoDir,
    BadConfigPath,
    BadDataPath,
}

/// An initialisation of a catalogue in the directory `dir`.
#[derive(Debug)]
pub struct Init {
    dir: String,
}

impl View for Init {
    type V = Seq<char>;

    /// The directory.
    closed spec fn view(&self) -> Seq<char> {
        self.dir@
    }
}

impl Init {
    /// An initialisation in `dir`, where `dir_exists` tells whether that path
    /// exists (`BadDataPath` if not); without `dir`, in the user's data
    /// directory `data_dir` (`BadDataPath` where there is none).
    pub fn create(dir: Option<String>, dir_exists: bool, data_dir: Option<String>) -> (res: Result<
        Init,
        InitError,
    >)
        ensures
            match dir {
                Some(d) => if dir_exists {
                    res matches Ok(it) && it@ == d@
                } else {
                    res == Err::<Init, InitError>(InitError::BadDataPath)
                },
                None => match data_dir {
                    Some(dd) => res matches Ok(it) && it@ == dd@,
                    None => res == Err::<Init, InitError>(InitError::BadDataPath),
                },
            },
    {
        match dir {
            Some(d) => {
                if dir_exists {
                    Ok(Init { dir: d })
                } else {
                    Err(InitError::BadDataPath)
                }
            },
            None => match data_dir {
                Some(dd) => Ok(Init { dir: dd }),
                None => Err(InitError::BadDataPath),
            },
        }
    }

    /// The directory in which the database is created.
    pub fn dir(&self) -> (res: &str)
        ensures
            res@ == self@,
    {
        self.dir.as_str()
    }
}

} // verus!
