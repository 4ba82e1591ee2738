//! The state behind the small widgets of the content windows: the editable list, the file
//! chooser of a form and the selector.
use vstd::prelude::*;
use vstd::string::*;
use crate::forms::{copy_strings, strings_view};

verus! {

/// A list of lines that the user adds to, edits and removes from.
pub struct EditableList {
    /// The items as last collected from the rows.
    items: Vec<String>,
    /// The text of each row of the list, in order.
    rows: Vec<String>,
    /// The selected row, if any.
    selected: Option<usize>,
}

/// The model of an editable list.
pub struct EditableListSpec {
    pub items: Seq<Seq<char>>,
    pub rows: Seq<Seq<char>>,
    pub selected: Option<int>,
}

impl View for EditableList {
    type V = EditableListSpec;

    closed spec fn view(&self) -> EditableListSpec {
        EditableListSpec {
            items: strings_view(self.items@),
            rows: strings_view(self.rows@),
            selected: match self.selected {
                Some(i) => Some(i as int),
                None => None,
            },
        }
    }
}

/// The text of a new row.
pub open spec fn new_row_text() -> Seq<char> {
    "Double click to edit"@
}

impl EditableList {
    pub fn new() -> (r: Self)
        ensures
            r@.items.len() == 0,
            r@.rows.len() == 0,
            r@.selected is None,
    {
        let r = EditableList { items: Vec::new(), rows: Vec::new(), selected: None };
        proof {
            assert(r@.items =~= Seq::<Seq<char>>::empty());
            assert(r@.rows =~= Seq::<Seq<char>>::empty());
        }
        r
    }

    /// The items, to change them in place.
    pub fn items_mut(&mut self) -> (r: &mut Vec<String>)
        ensures
            strings_view(r@) == old(self)@.items,
            final(self)@ == (EditableListSpec { items: strings_view(final(r)@), ..old(self)@ }),
    {
        &mut self.items
    }

    /// Whether the list has any row.
    pub fn has_items(&self) -> (r: bool)
        ensures
            r == (self@.rows.len() > 0),
    {
        self.rows.len() > 0
    }

    /// The text of every row, in order.
    pub fn value(&self) -> (r: Vec<String>)
        ensures
            strings_view(r@) == self@.rows,
    {
        copy_strings(&self.rows)
    }

    /// Collects the items from the rows.
    pub fn update_items(&mut self)
        ensures
            final(self)@ == (EditableListSpec { items: old(self)@.rows, ..old(self)@ }),
    {
        self.items = self.value();
    }

    /// Selects a row (or none).
    pub fn select_row(&mut self, row: Option<usize>)
        requires
            row matches Some(i) ==> i < old(self)@.rows.len(),
        ensures
            final(self)@ == (EditableListSpec {
                selected: match row {
                    Some(i) => Some(i as int),
                    None => None,
                },
                ..old(self)@
            }),
    {
        self.selected = row;
    }

    /// A new row is added at the end, and the items are collected from the rows (so that they
    /// hold it).
    pub fn handle_new_list_item(&mut self)
        ensures
            final(self)@ == (EditableListSpec {
                items: old(self)@.rows.push(new_row_text()),
                rows: old(self)@.rows.push(new_row_text()),
                ..old(self)@
            }),
    {
        let editable = String::from_str("Double click to edit");
        self.rows.push(editable);
        proof {
            assert(strings_view(self.rows@) =~= old(self)@.rows.push(new_row_text()));
        }
        self.update_items();
    }

    /// Removes the selected row, or the last one when none is selected, then collects the items.
    pub fn handle_remove_list_item(&mut self)
        requires
            old(self)@.selected matches Some(i) ==> 0 <= i < old(self)@.rows.len(),
        ensures
            ({
                let old_rows = old(self)@.rows;
                let target = match old(self)@.selected {
                    Some(i) => i,
                    None => old_rows.len() - 1,
                };
                if old_rows.len() == 0 {
                    final(self)@ == old(self)@
                } else {
                    final(self)@ == (EditableListSpec {
                        items: old_rows.remove(target),
                        rows: old_rows.remove(target),
                        selected: None,
                    })
                }
            }),
    {
        if self.rows.len() == 0 {
            return;
        }
        let target = match self.selected {
            Some(i) => i,
            None => self.rows.len() - 1,
        };
        let ghost old_rows = self.rows@;
        self.rows.remove(target);
        self.selected = None;
        proof {
            assert(strings_view(self.rows@) =~= strings_view(old_rows).remove(target as int));
        }
        self.update_items();
    }
}

/// A form object to choose a file with, showing the chosen file's path.
pub struct FormFilebrowse {
    /// The path of the chosen file, if any.
    file: Option<String>,
    /// The text shown.
    inscription: Option<String>,
    /// The tooltip shown.
    tooltip: Option<String>,
}

/// The model of a file chooser.
pub struct FormFilebrowseSpec {
    pub file: Option<Seq<char>>,
    pub inscription: Option<Seq<char>>,
    pub tooltip: Option<Seq<char>>,
}

pub open spec fn opt_view(o: Option<String>) -> Option<Seq<char>> {
    match o {
        Some(s) => Some(s@),
        None => None,
    }
}

fn copy_opt(o: &Option<String>) -> (r: Option<String>)
    ensures
        opt_view(r) == opt_view(*o),
{
    match o {
        Some(s) => Some(s.clone()),
        None => None,
    }
}

impl View for FormFilebrowse {
    type V = FormFilebrowseSpec;

    closed spec fn view(&self) -> FormFilebrowseSpec {
        FormFilebrowseSpec {
            file: opt_view(self.file),
            inscription: opt_view(self.inscription),
            tooltip: opt_view(self.tooltip),
        }
    }
}

impl FormFilebrowse {
    pub fn new() -> (r: Self)
        ensures
            r@ == (FormFilebrowseSpec { file: None, inscription: None, tooltip: None }),
    {
        FormFilebrowse { file: None, inscription: None, tooltip: None }
    }

    /// The path of the chosen file, if any.
    pub fn file(&self) -> (r: Option<String>)
        ensures
            opt_view(r) == self@.file,
    {
        copy_opt(&self.file)
    }

    /// The text shown, if any.
    pub fn inscription(&self) -> (r: Option<String>)
        ensures
            opt_view(r) == self@.inscription,
    {
        copy_opt(&self.inscription)
    }

    /// The tooltip shown, if any.
    pub fn tooltip(&self) -> (r: Option<String>)
        ensures
            opt_view(r) == self@.tooltip,
    {
        copy_opt(&self.tooltip)
    }

    /// Shows the chosen file's path (or nothing) as text and tooltip.
    pub fn update_inscription(&mut self)
        ensures
            final(self)@ == (FormFilebrowseSpec {
                inscription: old(self)@.file,
                tooltip: old(self)@.file,
                ..old(self)@
            }),
    {
        let file_path = copy_opt(&self.file);
        self.inscription = copy_opt(&file_path);
        self.tooltip = file_path;
    }

    /// A file was chosen in the dialog (or the dialog gave none).
    pub fn handle_browse_result(&mut self, chosen: Option<String>)
        ensures
            final(self)@ == (FormFilebrowseSpec {
                file: opt_view(chosen),
                inscription: opt_view(chosen),
                tooltip: opt_view(chosen),
            }),
    {
        self.file = chosen;
        self.update_inscription();
    }

    /// Forgets the chosen file.
    pub fn handle_clear(&mut self)
        ensures
            final(self)@ == (FormFilebrowseSpec { file: None, inscription: None, tooltip: None }),
    {
        self.file = None;
        self.update_inscription();
    }
}

/// A column of buttons of which one is highlighted.
pub struct Selector {
    buttons: Vec<String>,
    current_select: Option<usize>,
}

/// The model of a selector.
pub struct SelectorSpec {
    pub buttons: Seq<Seq<char>>,
    pub current: Option<int>,
}

impl View for Selector {
    type V = SelectorSpec;

    closed spec fn view(&self) -> SelectorSpec {
        SelectorSpec {
            buttons: strings_view(self.buttons@),
            current: match self.current_select {
                Some(i) => Some(i as int),
                None => None,
            },
        }
    }
}

impl Selector {
    /// Well formed: a highlighted button exists, and one is highlighted once there are buttons.
    pub closed spec fn wf(&self) -> bool {
        &&& self.buttons@.len() > 0 ==> self.current_select is Some
        &&& self.current_select matches Some(i) ==> i < self.buttons@.len()
    }

    pub fn new() -> (r: Self)
        ensures
            r.wf(),
            r@.buttons.len() == 0,
            r@.current is None,
    {
        let r = Selector { buttons: Vec::new(), current_select: None };
        proof {
            assert(r@.buttons =~= Seq::<Seq<char>>::empty());
        }
        r
    }

    /// Adds a button; the first one added is highlighted.
    pub fn add_selection(&mut self, name: &str)
        requires
            old(self).wf(),
        ensures
            final(self).wf(),
            final(self)@.buttons == old(self)@.buttons.push(name@),
            final(self)@.current == (if old(self)@.buttons.len() == 0 {
                Some(0int)
            } else {
                old(self)@.current
            }),
    {
        let first = self.buttons.len() == 0;
        self.buttons.push(String::from_str(name));
        if first {
            self.current_select = Some(0);
        }
        proof {
            assert(strings_view(self.buttons@) =~= old(self)@.buttons.push(name@));
        }
    }

    /// A button was clicked: it is highlighted instead of the one before.
    pub fn select(&mut self, button: usize)
        requires
            old(self).wf(),
            button < old(self)@.buttons.len(),
        ensures
            final(self).wf(),
            final(self)@ == (SelectorSpec { current: Some(button as int), ..old(self)@ }),
    {
        self.current_select = Some(button);
    }

    /// The name of the highlighted button, if any.
    pub fn selected_name(&self) -> (r: Option<String>)
        requires
            self.wf(),
        ensures
            opt_view(r) == (match self@.current {
                Some(i) => Some(self@.buttons[i]),
                None => None,
            }),
    {
        match self.current_select {
            Some(i) => Some(self.buttons[i].clone()),
            None => None,
        }
    }
}

/// A new row removed again leaves the rows as they were: adding a row and then removing the
/// last one (no row being selected) restores the list's rows (and the items collected are
/// those rows).
pub proof fn law_new_row_then_remove(l: EditableListSpec)
    requires
        l.selected is None,
    ensures
        ({
            let added = EditableListSpec { items: l.rows.push(new_row_text()), rows: l.rows.push(new_row_text()), ..l };
            added.rows.remove(added.rows.len() - 1) == l.rows
        }),
{
    let added_rows = l.rows.push(new_row_text());
    assert(added_rows.remove(added_rows.len() - 1) =~= l.rows);
}

} // verus!
