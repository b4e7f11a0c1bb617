//! The `mount` command: where the catalogue is to be mounted as a file
//! system.

use vstd::prelude::*;

verus! {

/// The reason a mount could not start.
#[derive(Debug, PartialEq, Eq, Structural)]
pub enum MountError {
    NoDir,
    BadPath,
}

/// A mount at the directory `dir`.
#[derive(Debug)]
pub struct Mount {
    dir: String,
}

impl View for Mount {
    type V = Seq<char>;

    /// The directory.
    closed spec fn view(&self) -> Seq<char> {
        self.dir@
    }
}

impl Mount {
    /// A mount at the directory `dir`; `dir_exists` tells whether that path
    /// exists. No directory is `NoDir`; a path that does not exist is
    /// `BadPath`.
    pub fn create(dir: Option<String>, dir_exists: bool) -> (res: Result<Mount, MountError>)
        ensures
            match dir {
                Some(d) => if dir_exists {
                    res matches Ok(m) && m@ == d@
                } else {
                    res == Err::<Mount, MountError>(MountError::BadPath)
                },
                None => res == Err::<Mount, MountError>(MountError::NoDir),
            },
    {
        match dir {
            Some(d) => {
                if dir_exists {
                    Ok(Mount { dir: d })
                } else {
                    Err(MountError::BadPath)
                }
            },
            None => Err(MountError::NoDir),
        }
    }

    /// The mount point.
    pub fn dir(&self) -> (res: &str)
        ensures
            res@ == self@,
    {
        self.dir.as_str()
    }
}

} // verus!
