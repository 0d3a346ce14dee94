//! Palette state: the open flag, the search query, the selection cursor and
//! the submenu path. The presentation layer drives it from events and reads
//! it when rendering; every transition is a plain state change.

use vstd::prelude::*;

verus! {

/// State for the command palette.
///
/// Store this in the application state, update it from events, and pass it
/// to the rendering layer.
#[derive(Debug, Clone)]
pub struct PaletteState {
    /// Whether the palette is currently open.
    pub open: bool,
    /// Current search query.
    pub query: String,
    /// Currently selected index in the filtered results.
    pub selected_index: usize,
    /// Navigation path for submenus: a stack of submenu identifiers.
    pub submenu_path: Vec<String>,
}

impl Default for PaletteState {
    /// A closed palette with an empty query.
    fn default() -> (r: Self)
        ensures
            !r.open,
            r.query@ == Seq::<char>::empty(),
            r.selected_index == 0,
            r.submenu_path@ == Seq::<String>::empty(),
    {
        PaletteState { open: false, query: String::new(), selected_index: 0, submenu_path: Vec::new() }
    }
}

impl PaletteState {
    /// Creates a new closed palette state.
    pub fn new() -> (r: Self)
        ensures
            !r.open,
            r.query@ == Seq::<char>::empty(),
            r.selected_index == 0,
            r.submenu_path@ == Seq::<String>::empty(),
    {
        PaletteState { open: false, query: String::new(), selected_index: 0, submenu_path: Vec::new() }
    }

    /// Returns whether the palette is open.
    pub fn is_open(&self) -> (r: bool)
        ensures
            r == self.open,
    {
        self.open
    }

    /// Returns the current search query.
    pub fn query(&self) -> (r: &str)
        ensures
            r@ == self.query@,
    {
        self.query.as_str()
    }

    /// Returns the currently selected index.
    pub fn selected_index(&self) -> (r: usize)
        ensures
            r == self.selected_index,
    {
        self.selected_index
    }

    /// Opens the palette with a fresh query, selection and submenu path.
    pub fn open(&mut self)
        ensures
            final(self).open,
            final(self).query@ == Seq::<char>::empty(),
            final(self).selected_index == 0,
            final(self).submenu_path@ == Seq::<String>::empty(),
    {
        self.open = true;
        self.query = String::new();
        self.selected_index = 0;
        self.submenu_path = Vec::new();
    }

    /// Closes the palette and drops its query, selection and submenu path.
    pub fn close(&mut self)
        ensures
            !final(self).open,
            final(self).query@ == Seq::<char>::empty(),
            final(self).selected_index == 0,
            final(self).submenu_path@ == Seq::<String>::empty(),
    {
        self.open = false;
        self.query = String::new();
        self.selected_index = 0;
        self.submenu_path = Vec::new();
    }

    /// Toggles the palette open or closed; either way the query, the
    /// selection and the submenu path start fresh.
    pub fn toggle(&mut self)
        ensures
            final(self).open == !old(self).open,
            final(self).query@ == Seq::<char>::empty(),
            final(self).selected_index == 0,
            final(self).submenu_path@ == Seq::<String>::empty(),
    {
        if self.open {
            self.close();
        } else {
            self.open();
        }
    }

    /// Updates the search query and resets the selection.
    pub fn set_query(&mut self, query: String)
        ensures
            final(self).query == query,
            final(self).selected_index == 0,
            final(self).open == old(self).open,
            final(self).submenu_path == old(self).submenu_path,
    {
        self.query = query;
        self.selected_index = 0;
    }

    /// Sets the selected index.
    pub fn set_selected(&mut self, index: usize)
        ensures
            final(self).selected_index == index,
            final(self).open == old(self).open,
            final(self).query == old(self).query,
            final(self).submenu_path == old(self).submenu_path,
    {
        self.selected_index = index;
    }

    /// Moves the selection up in a list of `item_count` entries, wrapping to
    /// its bottom; an empty list leaves the state untouched.
    pub fn navigate_up(&mut self, item_count: usize)
        ensures
            item_count == 0 ==> *final(self) == *old(self),
            item_count > 0 && old(self).selected_index == 0 ==> final(self).selected_index
                == item_count - 1,
            item_count > 0 && old(self).selected_index > 0 ==> final(self).selected_index == old(self).selected_index - 1,
            final(self).open == old(self).open,
            final(self).query == old(self).query,
            final(self).submenu_path == old(self).submenu_path,
    {
        if item_count == 0 {
            return ;
        }
        self.selected_index = if self.selected_index == 0 {
            item_count - 1
        } else {
            self.selected_index - 1
        };
    }

    /// Moves the selection down in a list of `item_count` entries, wrapping
    /// to its top; an empty list leaves the state untouched.
    pub fn navigate_down(&mut self, item_count: usize)
        ensures
            item_count == 0 ==> *final(self) == *old(self),
            item_count > 0 && old(self).selected_index >= item_count - 1 ==> final(self).selected_index == 0,
            item_count > 0 && old(self).selected_index < item_count - 1 ==> final(self).selected_index == old(self).selected_index + 1,
            final(self).open == old(self).open,
            final(self).query == old(self).query,
            final(self).submenu_path == old(self).submenu_path,
    {
        if item_count == 0 {
            return ;
        }
        self.selected_index = if self.selected_index >= item_count - 1 {
            0
        } else {
            self.selected_index + 1
        };
    }

    /// Enters a submenu: pushes its identifier onto the path and starts the
    /// query and the selection fresh.
    pub fn enter_submenu(&mut self, submenu_id: String)
        ensures
            final(self).submenu_path@ == old(self).submenu_path@.push(submenu_id),
            final(self).query@ == Seq::<char>::empty(),
            final(self).selected_index == 0,
            final(self).open == old(self).open,
    {
        self.submenu_path.push(submenu_id);
        self.query = String::new();
        self.selected_index = 0;
    }

    /// Goes back one level in submenu navigation. Where there was a level to
    /// leave, the query and the selection start fresh and the call reports
    /// `true`; at the top level nothing changes.
    pub fn go_back(&mut self) -> (r: bool)
        ensures
            r == (old(self).submenu_path@.len() > 0),
            !r ==> final(self).submenu_path@ == old(self).submenu_path@ && final(self).query == old(
                self,
            ).query && final(self).selected_index == old(self).selected_index,
            r ==> final(self).submenu_path@ == old(self).submenu_path@.drop_last(),
            r ==> final(self).query@ == Seq::<char>::empty(),
            r ==> final(self).selected_index == 0,
            final(self).open == old(self).open,
    {
        let popped = self.submenu_path.pop();
        match popped {
            Some(_) => {
                self.query = String::new();
                self.selected_index = 0;
                true
            },
            None => false,
        }
    }

    /// Returns the current submenu path.
    pub fn submenu_path(&self) -> (r: &Vec<String>)
        ensures
            r@ == self.submenu_path@,
    {
        &self.submenu_path
    }
}

} // verus!
