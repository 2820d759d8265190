//! The application's one setting.

use vstd::prelude::*;

verus! {

/// The application: it browses the movies under one directory.
#[derive(Debug)]
pub struct App {
    path: String,
}

impl App {
    /// The directory that is browsed.
    pub closed spec fn root(self) -> Seq<char> {
        self.path@
    }

    /// The application over the directory `path`.
    pub fn new(path: String) -> (app: Self)
        ensures
            app.root() == path@,
    {
        Self { path }
    }

    /// The directory that is browsed.
    pub fn path(&self) -> (path: &str)
        ensures
            path@ == self.root(),
    {
        self.path.as_str()
    }
}

} // verus!
