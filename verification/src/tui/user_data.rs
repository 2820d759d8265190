//! What the interface keeps between two key presses.

use vstd::prelude::*;
use crate::archive::Archive;
use crate::tui::filter_view::Filter;

verus! {

/// The archive and the filter that is in force.
#[derive(Debug)]
pub struct UserData {
    archive: Archive,
    filter: Filter,
}

impl UserData {
    /// The archive that is kept.
    pub closed spec fn archive(self) -> Archive {
        self.archive
    }

    /// The filter that is in force.
    pub closed spec fn filter(self) -> Filter {
        self.filter
    }

    /// Keeps the archive, with no filter in force.
    pub fn new(archive: Archive) -> (data: Self)
        ensures
            data.archive() == archive,
            data.filter() == Filter::Empty,
    {
        Self { archive, filter: Filter::Empty }
    }

    /// The filter that is in force.
    pub fn get_filter(&self) -> (filter: &Filter)
        ensures
            *filter == self.filter(),
    {
        &self.filter
    }

    /// The filter, to change it. The archive stays as it is.
    pub fn get_mut_filter(&mut self) -> (filter: &mut Filter)
        ensures
            *filter == old(self).filter(),
            final(self).filter() == *final(filter),
            final(self).archive() == old(self).archive(),
    {
        &mut self.filter
    }

    /// The archive, to read or to change it. The filter stays as it is.
    pub fn get_mut_archive(&mut self) -> (archive: &mut Archive)
        ensures
            *archive == old(self).archive(),
            final(self).archive() == *final(archive),
            final(self).filter() == old(self).filter(),
    {
        &mut self.archive
    }
}

} // verus!
