//! Destinations of the resized images.

use vstd::prelude::*;
use crate::text::push_str;

verus! {

/// Sends a finished file, under its file name, to its destination.
pub trait Uploader {
    /// Stores `data` as the file `filename`.
    fn upload(&self, filename: &str, data: Vec<u8>);
}

/// Uploads files into the directory named by `MYME_FILES_PATH`.
pub struct FsUploader;

/// Uploads files into an S3 bucket, under their file name as key.
pub struct S3Uploader {
    /// The bucket that receives the files.
    pub bucket: String,
}

impl FsUploader {
    /// The path that a file named `filename` is written to, in the directory
    /// `dir`: `dir/filename`.
    pub fn target_path(&self, dir: &str, filename: &str) -> (r: String)
        ensures
            r@ == dir@ + "/"@ + filename@,
    {
        let mut p = String::from_str(dir);
        push_str(&mut p, "/");
        push_str(&mut p, filename);
        p
    }
}

} // verus!
