//! The toolbar above an editor.

use vstd::prelude::*;

verus! {

/// An item of a toolbar.
#[derive(Debug)]
pub struct ToolbarItem {}

/// A row of items above an editor.
#[derive(Debug)]
pub struct Toolbar {
    items: Vec<ToolbarItem>,
}

impl View for Toolbar {
    type V = Seq<ToolbarItem>;

    closed spec fn view(&self) -> Seq<ToolbarItem> {
        self.items@
    }
}

impl Toolbar {
    /// A toolbar without items.
    pub fn new() -> (toolbar: Self)
        ensures
            toolbar@ == Seq::<ToolbarItem>::empty(),
    {
        Toolbar { items: Vec::new() }
    }

    /// The items, from left to right.
    pub fn items(&self) -> (items: &Vec<ToolbarItem>)
        ensures
            items@ == self@,
    {
        &self.items
    }
}

} // verus!
