//! The client's add-game dialog, reduced to the state the user interface
//! renders: a title and whether the dialog is open. The drawing itself
//! happens outside the library.

use vstd::prelude::*;

verus! {

/// The add-game dialog's state.
#[derive(Debug)]
pub struct AddGameDialog {
    pub title: String,
    pub opened: bool,
}

impl AddGameDialog {
    /// A dialog with the given title and visibility.
    pub fn new(title: String, opened: bool) -> (r: AddGameDialog)
        ensures
            r.title@ == title@,
            r.opened == opened,
    {
        AddGameDialog { title, opened }
    }

    /// Close the dialog.
    pub fn close(&mut self)
        ensures
            !final(self).opened,
            final(self).title@ == old(self).title@,
    {
        self.opened = false;
    }
}

} // verus!
