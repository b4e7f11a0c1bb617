//! The `scan` command: walks a directory and records every file in it as an
//! image, in batches.

use vstd::prelude::*;

use crate::image::{Image, ImageView};

verus! {

/// The reason a scan could not start.
#[derive(Debug, PartialEq, Eq, Structural)]
pub enum ScanError {
    NoDir,
    BadPath,
    FileError,
}

/// A scan of the directory `dir`.
#[derive(Debug)]
pub struct Scan {
    dir: String,
}

impl View for Scan {
    type V = Seq<char>;

    /// The directory.
    closed spec fn view(&self) -> Seq<char> {
        self.dir@
    }
}

impl Scan {
    /// A scan of the directory `dir`; `dir_exists` tells whether that path
    /// exists. No directory is `NoDir`; a path that does not exist is
    /// `BadPath`.
    pub fn create(dir: Option<String>, dir_exists: bool) -> (res: Result<Scan, ScanError>)
        ensures
            match dir {
                Some(d) => if dir_exists {
                    res matches Ok(sc) && sc@ == d@
                } else {
                    res == Err::<Scan, ScanError>(ScanError::BadPath)
                },
                None => res == Err::<Scan, ScanError>(ScanError::NoDir),
            },
    {
        match dir {
            Some(d) => {
                if dir_exists {
                    Ok(Scan { dir: d })
                } else {
                    Err(ScanError::BadPath)
                }
            },
            None => Err(ScanError::NoDir),
        }
    }

    /// The directory to scan.
    pub fn dir(&self) -> (res: &str)
        ensures
            res@ == self@,
    {
        self.dir.as_str()
    }
}

/// How many images a scan sends to the database at a time.
pub const BATCH_SIZE: usize = 100;

pub open spec fn views(ims: Seq<Image>) -> Seq<ImageView> {
    ims.map_values(|im: Image| im@)
}

/// The images found by a scan that have not been sent to the database yet;
/// fewer than `BATCH_SIZE` of them.
pub struct ImageBatch {
    pending: Vec<Image>,
}

impl ImageBatch {
    #[verifier::type_invariant]
    closed spec fn not_full(self) -> bool {
        self.pending.len() < BATCH_SIZE
    }

    /// The images waiting, in the order they were found.
    pub closed spec fn waiting(self) -> Seq<ImageView> {
        views(self.pending@)
    }

    pub fn new() -> (res: ImageBatch)
        ensures
            res.waiting() == Seq::<ImageView>::empty(),
    {
        let res = ImageBatch { pending: Vec::new() };
        assert(res.waiting() =~= Seq::<ImageView>::empty());
        res
    }

    /// Adds a found image. When `BATCH_SIZE` images are waiting, hands them
    /// all out, in order, and starts a new batch.
    pub fn push(&mut self, im: Image) -> (full: Option<Vec<Image>>)
        ensures
            match full {
                Some(b) => {
                    &&& views(b@) == old(self).waiting().push(im@)
                    &&& b@.len() == BATCH_SIZE
                    &&& final(self).waiting() == Seq::<ImageView>::empty()
                },
                None => {
                    &&& final(self).waiting() == old(self).waiting().push(im@)
                    &&& old(self).waiting().len() + 1 < BATCH_SIZE
                },
            },
    {
        proof {
            use_type_invariant(&*self);
        }
        let mut pending: Vec<Image> = Vec::new();
        std::mem::swap(&mut pending, &mut self.pending);
        let ghost before = pending@;
        let ghost v = im@;
        pending.push(im);
        assert(views(pending@) =~= views(before).push(v));
        if pending.len() == BATCH_SIZE {
            assert(self.waiting() =~= Seq::<ImageView>::empty());
            Some(pending)
        } else {
            self.pending = pending;
            None
        }
    }

    /// Hands out the images still waiting, in order.
    pub fn finish(self) -> (rest: Vec<Image>)
        ensures
            views(rest@) == self.waiting(),
            rest@.len() < BATCH_SIZE,
    {
        proof {
            use_type_invariant(&self);
        }
        self.pending
    }
}

} // verus!
