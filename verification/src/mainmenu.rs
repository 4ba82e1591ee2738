//! The main window: the stack of mods, what is shown around it, and the choice of the game
//! folder.
use vstd::prelude::*;
use vstd::string::*;
use crate::forms::{copy_strings, strings_view};

verus! {

/// The model of the main window.
pub struct MainMenuSpec {
    /// The names of the pages of the mod stack, in order.
    pub pages: Seq<Seq<char>>,
    /// The page shown, if any.
    pub visible: Option<int>,
    pub mod_editor: bool,
    pub first_new_mod: bool,
    pub new_content: bool,
    pub folder_box: bool,
    /// The name in the mod toolbar.
    pub toolbar_name: Seq<char>,
}

/// The main window's state: one page per mod, and which parts of the window are shown.
pub struct MainMenuWindow {
    mod_stack: Vec<String>,
    visible: Option<usize>,
    mod_editor: bool,
    first_new_mod: bool,
    new_content: bool,
    folder_box: bool,
    mod_toolbar_name: String,
}

/// The name of the page shown, if any.
pub open spec fn visible_name(m: MainMenuSpec) -> Option<Seq<char>> {
    match m.visible {
        Some(i) => Some(m.pages[i]),
        None => None,
    }
}

/// What is shown around the stack once the page shown is `name`: the mod editor and the
/// mod's name when a page is shown, the prompt for a first mod when none is; content can be
/// added to any mod but the one named `All`.
pub open spec fn after_stack_change(m: MainMenuSpec) -> MainMenuSpec {
    let name = match visible_name(m) {
        Some(n) => n,
        None => Seq::<char>::empty(),
    };
    MainMenuSpec {
        first_new_mod: visible_name(m) is None,
        mod_editor: visible_name(m) is Some,
        toolbar_name: if visible_name(m) is Some { name } else { m.toolbar_name },
        new_content: name != "All"@ && name != Seq::<char>::empty(),
        ..m
    }
}

/// The first page named `name`.
pub open spec fn first_page(pages: Seq<Seq<char>>, name: Seq<char>) -> int {
    choose|k: int| 0 <= k < pages.len() && pages[k] == name && forall|j: int| 0 <= j < k ==> #[trigger] pages[j] != name
}

/// Whether some page is named `name`.
pub open spec fn has_page(pages: Seq<Seq<char>>, name: Seq<char>) -> bool {
    exists|k: int| 0 <= k < pages.len() && #[trigger] pages[k] == name
}

/// Shows `idx`; where the page shown changes, what is around the stack follows it.
pub open spec fn show_spec(m: MainMenuSpec, idx: Option<int>) -> MainMenuSpec {
    if idx == m.visible {
        m
    } else {
        after_stack_change(MainMenuSpec { visible: idx, ..m })
    }
}

/// The page shown once page `k` of `n` is removed: the page after it, else the one before,
/// as numbered after the removal.
pub open spec fn after_removal(n: int, k: int) -> Option<int> {
    if n - 1 > 0 {
        if k + 1 < n {
            Some(k)
        } else {
            Some(k - 1)
        }
    } else {
        None
    }
}

/// A page named `name` added, and the first page of that name shown (a first page is shown
/// as it is added).
pub open spec fn add_page_spec(m: MainMenuSpec, name: Seq<char>) -> MainMenuSpec {
    let added = MainMenuSpec { pages: m.pages.push(name), ..m };
    let shown = if m.visible is None { show_spec(added, Some(added.pages.len() - 1)) } else { added };
    show_spec(shown, Some(first_page(added.pages, name)))
}

/// The first page named `name` removed: the page after it (else the one before) is shown
/// first, then the page goes, and what is around the stack follows the page shown.
pub open spec fn remove_page_spec(m: MainMenuSpec, name: Seq<char>) -> MainMenuSpec {
    let k = first_page(m.pages, name);
    let n = m.pages.len() as int;
    let moved = if n - 1 > 0 {
        show_spec(m, Some(if k + 1 < n { k + 1 } else { k - 1 }))
    } else {
        m
    };
    after_stack_change(MainMenuSpec { pages: moved.pages.remove(k), visible: after_removal(n, k), ..moved })
}

impl View for MainMenuWindow {
    type V = MainMenuSpec;

    closed spec fn view(&self) -> MainMenuSpec {
        MainMenuSpec {
            pages: strings_view(self.mod_stack@),
            visible: match self.visible {
                Some(i) => Some(i as int),
                None => None,
            },
            mod_editor: self.mod_editor,
            first_new_mod: self.first_new_mod,
            new_content: self.new_content,
            folder_box: self.folder_box,
            toolbar_name: self.mod_toolbar_name@,
        }
    }
}

impl MainMenuWindow {
    /// A page is shown exactly when there are pages.
    pub closed spec fn wf(&self) -> bool {
        match self.visible {
            Some(i) => i < self.mod_stack@.len(),
            None => self.mod_stack@.len() == 0,
        }
    }

    /// The window before any mod is loaded.
    pub fn new() -> (r: Self)
        ensures
            r.wf(),
            r@ == after_stack_change(MainMenuSpec {
                pages: Seq::empty(),
                visible: None,
                mod_editor: false,
                first_new_mod: false,
                new_content: false,
                folder_box: false,
                toolbar_name: Seq::empty(),
            }),
    {
        let mut w = MainMenuWindow {
            mod_stack: Vec::new(),
            visible: None,
            mod_editor: false,
            first_new_mod: false,
            new_content: false,
            folder_box: false,
            mod_toolbar_name: String::new(),
        };
        proof {
            assert(w@.pages =~= Seq::<Seq<char>>::empty());
        }
        w.stack_changed();
        w
    }

    /// Updates what is shown around the stack from the page shown.
    pub fn stack_changed(&mut self)
        requires
            old(self).wf(),
        ensures
            final(self).wf(),
            final(self)@ == after_stack_change(old(self)@),
    {
        let all = String::from_str("All");
        let mut name = String::new();
        match self.visible {
            Some(i) => {
                name = self.mod_stack[i].clone();
                self.first_new_mod = false;
                self.mod_editor = true;
                self.mod_toolbar_name = self.mod_stack[i].clone();
            },
            None => {
                self.first_new_mod = true;
                self.mod_editor = false;
            },
        }
        let empty = String::new();
        self.new_content = !name.eq(&all) && !name.eq(&empty);
        proof {
            assert(self@.pages =~= old(self)@.pages);
        }
    }

    /// Shows page `idx` (see [`show_spec`]).
    fn show(&mut self, idx: Option<usize>)
        requires
            match idx {
                Some(i) => i < old(self)@.pages.len(),
                None => old(self)@.pages.len() == 0,
            },
            old(self).wf(),
        ensures
            final(self).wf(),
            final(self)@ == show_spec(old(self)@, match idx {
                Some(i) => Some(i as int),
                None => None,
            }),
    {
        if idx != self.visible {
            self.visible = idx;
            self.stack_changed();
        }
    }

    /// Shows or hides the parts of the window that create mods and content.
    pub fn toggle_creation_visibility(&mut self, visible: bool)
        requires
            old(self).wf(),
        ensures
            final(self).wf(),
            final(self)@ == (MainMenuSpec {
                mod_editor: visible,
                first_new_mod: visible,
                new_content: visible,
                ..old(self)@
            }),
    {
        self.mod_editor = visible;
        self.first_new_mod = visible;
        self.new_content = visible;
    }

    /// Shows or hides the choice of the game folder.
    pub fn toggle_folder_visibility(&mut self, visible: bool)
        requires
            old(self).wf(),
        ensures
            final(self).wf(),
            final(self)@ == (MainMenuSpec { folder_box: visible, ..old(self)@ }),
    {
        self.folder_box = visible;
    }

    fn find_page(&self, name: &String) -> (r: Option<usize>)
        ensures
            r is None <==> !has_page(self@.pages, name@),
            r matches Some(k) ==> k == first_page(self@.pages, name@) && k < self@.pages.len(),
    {
        let mut k: usize = 0;
        while k < self.mod_stack.len()
            invariant
                k <= self.mod_stack@.len(),
                forall|j: int| 0 <= j < k ==> #[trigger] self@.pages[j] != name@,
            decreases self.mod_stack@.len() - k,
        {
            if self.mod_stack[k].eq(name) {
                proof {
                    assert(self@.pages[k as int] == name@);
                    lemma_first_page(self@.pages, name@, k as int);
                }
                return Some(k);
            }
            k = k + 1;
        }
        None
    }

    /// Adds a page for the mod `name` and shows the first page of that name.
    pub fn add_mod_to_stack(&mut self, name: String)
        requires
            old(self).wf(),
        ensures
            final(self).wf(),
            final(self)@ == add_page_spec(old(self)@, name@),
    {
        let ghost old_view = self@;
        let ghost n = name@;
        self.mod_stack.push(name);
        proof {
            assert(self@.pages =~= old_view.pages.push(n));
        }
        if self.visible.is_none() {
            let last = self.mod_stack.len() - 1;
            self.visible = Some(last);
            self.stack_changed();
        }
        let key = self.mod_stack[self.mod_stack.len() - 1].clone();
        proof {
            assert(self@.pages[self@.pages.len() - 1] == n);
            assert(has_page(self@.pages, n));
        }
        match self.find_page(&key) {
            Some(k) => self.show(Some(k)),
            None => {},
        }
    }

    /// Removes the first page named `name`; the page after it (else the one before) is shown
    /// from then on.
    #[verifier::rlimit(40)]
    #[verifier::spinoff_prover]
    pub fn remove_mod_from_stack(&mut self, name: &String)
        requires
            has_page(old(self)@.pages, name@),
            old(self).wf(),
        ensures
            final(self).wf(),
            final(self)@ == remove_page_spec(old(self)@, name@),
    {
        let k = match self.find_page(name) {
            Some(k) => k,
            None => {
                proof {
                    assert(false);
                }
                0
            },
        };
        let n = self.mod_stack.len();
        if n - 1 > 0 {
            let next = if k + 1 < n { k + 1 } else { k - 1 };
            self.show(Some(next));
        }
        let ghost moved = self@;
        let mut pages: Vec<String> = Vec::new();
        std::mem::swap(&mut pages, &mut self.mod_stack);
        pages.remove(k);
        let new_visible = if n - 1 > 0 {
            if k + 1 < n { Some(k) } else { Some(k - 1) }
        } else {
            None
        };
        self.mod_stack = pages;
        self.visible = new_visible;
        proof {
            assert(self@.pages =~= moved.pages.remove(k as int));
        }
        self.stack_changed();
    }

    /// Removes every page.
    pub fn clear_mods_stack(&mut self)
        requires
            old(self).wf(),
        ensures
            final(self).wf(),
            final(self)@ == show_spec(MainMenuSpec { pages: Seq::empty(), ..old(self)@ }, None),
    {
        let was_shown = self.visible.is_some();
        self.visible = None;
        self.mod_stack = Vec::new();
        proof {
            assert(self@.pages =~= Seq::<Seq<char>>::empty());
        }
        if was_shown {
            self.stack_changed();
        }
    }

    /// Whether the mod editor is shown.
    pub fn mod_editor_visible(&self) -> (r: bool)
        ensures
            r == self@.mod_editor,
    {
        self.mod_editor
    }

    /// Whether the prompt to create a first mod is shown.
    pub fn first_new_mod_visible(&self) -> (r: bool)
        ensures
            r == self@.first_new_mod,
    {
        self.first_new_mod
    }

    /// Whether the button to create content is shown.
    pub fn new_content_visible(&self) -> (r: bool)
        ensures
            r == self@.new_content,
    {
        self.new_content
    }

    /// Whether the choice of the game folder is shown.
    pub fn folder_box_visible(&self) -> (r: bool)
        ensures
            r == self@.folder_box,
    {
        self.folder_box
    }

    /// The name in the mod toolbar.
    pub fn toolbar_name(&self) -> (r: String)
        ensures
            r@ == self@.toolbar_name,
    {
        self.mod_toolbar_name.clone()
    }

    /// The names of the pages, in order.
    pub fn page_names(&self) -> (r: Vec<String>)
        ensures
            strings_view(r@) == self@.pages,
    {
        copy_strings(&self.mod_stack)
    }

    /// The name of the page shown, if any.
    pub fn visible_mod_stack_name(&self) -> (r: Option<String>)
        requires
            self.wf(),
        ensures
            match r {
                Some(s) => visible_name(self@) == Some(s@),
                None => visible_name(self@) is None,
            },
    {
        match self.visible {
            Some(i) => Some(self.mod_stack[i].clone()),
            None => None,
        }
    }
}

/// A page named `name` at `k`, with none before it, is the first page of that name.
proof fn lemma_first_page(pages: Seq<Seq<char>>, name: Seq<char>, k: int)
    requires
        0 <= k < pages.len(),
        pages[k] == name,
        forall|j: int| 0 <= j < k ==> #[trigger] pages[j] != name,
    ensures
        first_page(pages, name) == k,
{
    let c = first_page(pages, name);
    assert(0 <= c < pages.len() && pages[c] == name && forall|j: int| 0 <= j < c ==> #[trigger] pages[j] != name);
    if c < k {
        assert(pages[c] != name);
    }
    if k < c {
        assert(pages[k] != name);
    }
}


/// What is known of a folder that was chosen as the game folder.
pub struct FolderFacts {
    /// Whether its path has a root.
    pub has_root: bool,
    /// Whether it exists.
    pub exists: bool,
    /// The last part of its path, if any.
    pub file_name: Option<String>,
    /// Whether it has a `games` subfolder.
    pub games_exists: bool,
    /// The last part of its parent's path, if any.
    pub parent_name: Option<String>,
}

/// Where the games are found, given a valid choice of game folder.
#[derive(PartialEq, Eq, Structural, Debug, Clone, Copy)]
pub enum FolderChoice {
    /// In the `games` subfolder of the folder chosen.
    Games,
    /// In the folder chosen itself.
    AsChosen,
}

pub open spec fn opt_view(o: Option<String>) -> Option<Seq<char>> {
    match o {
        Some(s) => Some(s@),
        None => None,
    }
}

/// The name of the party pack's folder.
pub open spec fn pack_name() -> Seq<char> {
    "The Jackbox Party Pack 7"@
}

/// Whether a folder is the party pack's folder or its `games` subfolder, and if not, why.
pub open spec fn verify_folder_spec(f: FolderFacts) -> Result<FolderChoice, Seq<char>> {
    if !f.has_root {
        Err("Path does not contain root."@)
    } else if !f.exists {
        Err("Path does not exist."@)
    } else if opt_view(f.file_name) == Some(pack_name()) {
        if !f.games_exists {
            Err("Could not find games subdirectory."@)
        } else {
            Ok(FolderChoice::Games)
        }
    } else if opt_view(f.file_name) == Some("games"@) {
        if opt_view(f.parent_name) != Some(pack_name()) {
            Err("games subdirectory not in Jackbox Party Pack 7 folder."@)
        } else {
            Ok(FolderChoice::AsChosen)
        }
    } else {
        Err("Could not find Jackbox Party Pack 7 directory."@)
    }
}

pub open spec fn text_result<T>(r: Result<T, String>) -> Result<T, Seq<char>> {
    match r {
        Ok(v) => Ok(v),
        Err(e) => Err(e@),
    }
}

fn opt_eq(o: &Option<String>, s: &str) -> (r: bool)
    ensures
        r == (opt_view(*o) == Some(s@)),
{
    match o {
        Some(x) => x.eq(&String::from_str(s)),
        None => false,
    }
}

impl MainMenuWindow {
    /// Checks that a folder is the party pack's folder or its `games` subfolder.
    pub fn verify_folder(folder: &FolderFacts) -> (r: Result<FolderChoice, String>)
        ensures
            text_result(r) == verify_folder_spec(*folder),
    {
        if !folder.has_root {
            return Err(String::from_str("Path does not contain root."));
        }
        if !folder.exists {
            return Err(String::from_str("Path does not exist."));
        }
        if opt_eq(&folder.file_name, "The Jackbox Party Pack 7") {
            if !folder.games_exists {
                return Err(String::from_str("Could not find games subdirectory."));
            }
            Ok(FolderChoice::Games)
        } else if opt_eq(&folder.file_name, "games") {
            if !opt_eq(&folder.parent_name, "The Jackbox Party Pack 7") {
                return Err(String::from_str("games subdirectory not in Jackbox Party Pack 7 folder."));
            }
            Ok(FolderChoice::AsChosen)
        } else {
            Err(String::from_str("Could not find Jackbox Party Pack 7 directory."))
        }
    }

    /// A folder was chosen as the game folder: where its games are, or why it is refused.
    pub fn choose_folder(folder: &FolderFacts) -> (r: Result<FolderChoice, String>)
        ensures
            text_result(r) == (match verify_folder_spec(*folder) {
                Ok(c) => Ok(c),
                Err(_) => Err("Selection was not a valid folder."@),
            }),
    {
        match MainMenuWindow::verify_folder(folder) {
            Ok(c) => Ok(c),
            Err(_) => Err(String::from_str("Selection was not a valid folder.")),
        }
    }

    /// The game folder was stored: the parts that create mods and content are shown, and the
    /// choice of folder hidden, unless the mod editor was shown already.
    pub fn folder_stored(&mut self)
        requires
            old(self).wf(),
        ensures
            final(self).wf(),
            final(self)@ == (if old(self)@.mod_editor {
                old(self)@
            } else {
                MainMenuSpec {
                    mod_editor: true,
                    first_new_mod: true,
                    new_content: true,
                    folder_box: false,
                    ..old(self)@
                }
            }),
    {
        if !self.mod_editor {
            self.toggle_creation_visibility(true);
            self.toggle_folder_visibility(false);
        }
    }

    /// Sets up the choice of the game folder from the folder stored: where it is not a valid
    /// choice, the parts that create mods and content are hidden and the choice is shown.
    pub fn setup_folder_selection(&mut self, stored: &FolderFacts)
        requires
            old(self).wf(),
        ensures
            final(self).wf(),
            final(self)@ == (if verify_folder_spec(*stored) is Ok {
                old(self)@
            } else {
                MainMenuSpec {
                    mod_editor: false,
                    first_new_mod: false,
                    new_content: false,
                    folder_box: true,
                    ..old(self)@
                }
            }),
    {
        let is_valid = MainMenuWindow::verify_folder(stored).is_ok();
        if !is_valid {
            self.toggle_creation_visibility(false);
            self.toggle_folder_visibility(true);
        }
    }
}

/// Where some page is named `name`, there is a first one.
pub proof fn lemma_first_page_exists(pages: Seq<Seq<char>>, name: Seq<char>)
    requires
        has_page(pages, name),
    ensures
        0 <= first_page(pages, name) < pages.len(),
        pages[first_page(pages, name)] == name,
        forall|j: int| 0 <= j < first_page(pages, name) ==> #[trigger] pages[j] != name,
    decreases pages.len(),
{
    if pages[0] == name {
        assert(forall|j: int| 0 <= j < 0 ==> #[trigger] pages[j] != name);
        lemma_first_page(pages, name, 0);
    } else {
        let rest = pages.drop_first();
        let k = choose|k: int| 0 <= k < pages.len() && #[trigger] pages[k] == name;
        assert(rest[k - 1] == name);
        lemma_first_page_exists(rest, name);
        let f = first_page(rest, name);
        assert forall|j: int| 0 <= j < f + 1 implies #[trigger] pages[j] != name by {
            if j > 0 {
                assert(pages[j] == rest[j - 1]);
            }
        }
        lemma_first_page(pages, name, f + 1);
    }
}

/// A mod added to the stack is the one shown, on a page of its own at the end.
pub proof fn law_added_page_shown(m: MainMenuSpec, name: Seq<char>)
    requires
        match m.visible {
            Some(i) => 0 <= i < m.pages.len(),
            None => m.pages.len() == 0,
        },
    ensures
        add_page_spec(m, name).pages == m.pages.push(name),
        visible_name(add_page_spec(m, name)) == Some(name),
{
    let added = MainMenuSpec { pages: m.pages.push(name), ..m };
    assert(added.pages[added.pages.len() - 1] == name);
    assert(has_page(added.pages, name));
    lemma_first_page_exists(added.pages, name);
}

/// Removing a mod from the stack drops its first page and keeps the others in order; a page
/// is still shown exactly when pages are left.
pub proof fn law_removed_page(m: MainMenuSpec, name: Seq<char>)
    requires
        match m.visible {
            Some(i) => 0 <= i < m.pages.len(),
            None => m.pages.len() == 0,
        },
        has_page(m.pages, name),
    ensures
        remove_page_spec(m, name).pages == m.pages.remove(first_page(m.pages, name)),
        remove_page_spec(m, name).visible is Some <==> m.pages.len() > 1,
        remove_page_spec(m, name).visible matches Some(i) ==> 0 <= i < m.pages.len() - 1,
{
    lemma_first_page_exists(m.pages, name);
}

/// Removing a mod undoes adding it: a page added under a new name and then removed leaves the
/// pages as they were.
pub proof fn law_add_then_remove_page(m: MainMenuSpec, name: Seq<char>)
    requires
        match m.visible {
            Some(i) => 0 <= i < m.pages.len(),
            None => m.pages.len() == 0,
        },
        !has_page(m.pages, name),
    ensures
        remove_page_spec(add_page_spec(m, name), name).pages == m.pages,
{
    let added = MainMenuSpec { pages: m.pages.push(name), ..m };
    let n = m.pages.len() as int;
    assert(added.pages[n] == name);
    assert forall|j: int| 0 <= j < n implies #[trigger] added.pages[j] != name by {
        assert(added.pages[j] == m.pages[j]);
        if m.pages[j] == name {
            assert(has_page(m.pages, name));
        }
    }
    lemma_first_page(added.pages, name, n);
    law_added_page_shown(m, name);
    let a = add_page_spec(m, name);
    assert(a.pages == added.pages);
    assert(has_page(a.pages, name));
    assert(first_page(a.pages, name) == n);
    assert(a.pages.remove(n) =~= m.pages);
}

} // verus!
