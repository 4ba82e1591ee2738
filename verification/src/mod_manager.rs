//! The mods: their names, ids and folders, the content each one holds, and the set of them.
//!
//! Creating folders, reading and writing the files of a mod is left to the caller: the
//! functions here decide what goes where and keep the bookkeeping.
use vstd::prelude::*;
use vstd::string::*;
use crate::content::subcontent::manifest::{item_text, upsert_spec, manifest_input, bytes_result, ManifestItem};
use crate::content::subcontent::SubcontentBox;
use crate::util::manifest_writer::ManifestError;
use crate::mainmenu::{visible_name, MainMenuWindow};
use crate::text::push_char;

verus! {

broadcast use vstd::string::axiom_spec_iter;

/// How one character of a name appears in an id: ASCII capitals are lowered, spaces become
/// underscores, everything else stays.
pub open spec fn id_char(c: char) -> char {
    if 'A' <= c && c <= 'Z' {
        ((c as u32) + 32) as char
    } else if c == ' ' {
        '_'
    } else {
        c
    }
}

/// The id of a name: the name in ASCII lower case, with each space replaced by `_`.
pub open spec fn to_id(s: Seq<char>) -> Seq<char> {
    s.map_values(|c: char| id_char(c))
}

/// An id is its name lowered to ASCII lower case with spaces as underscores: it has one
/// character for each of the name's; each ASCII capital `A`..`Z` becomes the small letter 32
/// code points on, each space an underscore, and every other character stays as it was. So no
/// id holds an ASCII capital or a space.
pub proof fn law_id_is_ascii_lowercase(s: Seq<char>)
    ensures
        to_id(s).len() == s.len(),
        forall|i: int| 0 <= i < s.len() ==> !('A' <= #[trigger] to_id(s)[i] && to_id(s)[i] <= 'Z'),
        forall|i: int| 0 <= i < s.len() ==> #[trigger] to_id(s)[i] != ' ',
        forall|i: int|
            0 <= i < s.len() && 'A' <= s[i] && s[i] <= 'Z' ==> (#[trigger] to_id(s)[i]) as u32 == (s[i] as u32) + 32,
        forall|i: int| 0 <= i < s.len() && s[i] == ' ' ==> #[trigger] to_id(s)[i] == '_',
        forall|i: int|
            0 <= i < s.len() && !('A' <= s[i] && s[i] <= 'Z') && s[i] != ' ' ==> #[trigger] to_id(s)[i] == s[i],
{
    assert forall|i: int| 0 <= i < s.len() && 'A' <= s[i] && s[i] <= 'Z' implies (#[trigger] to_id(s)[i]) as u32
        == (s[i] as u32) + 32 && 'a' <= to_id(s)[i] && to_id(s)[i] <= 'z' by {
        let c = s[i];
        let u = (c as u32) + 32;
        assert(97 <= u <= 122);
    }
}

/// Ids are made character by character: the id of two names run together is the two ids
/// run together.
pub proof fn law_id_of_concat(a: Seq<char>, b: Seq<char>)
    ensures
        to_id(a + b) == to_id(a) + to_id(b),
{
    assert(to_id(a + b) =~= to_id(a) + to_id(b));
}

fn id_char_exec(c: char) -> (r: char)
    ensures
        r == id_char(c),
{
    if 'A' <= c && c <= 'Z' {
        let u: u32 = c as u32;
        let low: u8 = (u + 32) as u8;
        low as char
    } else if c == ' ' {
        '_'
    } else {
        c
    }
}

/// The id of a name (see [`to_id`]).
pub fn string_to_id(string: &String) -> (r: String)
    ensures
        r@ == to_id(string@),
{
    let mut r = String::new();
    for c in it: string.as_str().chars()
        invariant
            it.seq() == string@,
            r@ == to_id(it.seq().take(it.index() as int)),
    {
        push_char(&mut r, id_char_exec(c));
        proof {
            assert(it.seq().take(it.index() + 1) == it.seq().take(it.index() as int).push(c));
        }
    }
    proof {
        assert(string@.take(string@.len() as int) == string@);
    }
    r
}


/// The digit character of `d`, for `d` below ten.
pub open spec fn digit_char(d: nat) -> char {
    (48 + d) as char
}

/// `n` written in decimal, without leading zeros.
pub open spec fn decimal(n: nat) -> Seq<char>
    decreases n,
{
    if n < 10 {
        seq![digit_char(n)]
    } else {
        decimal(n / 10).push(digit_char(n % 10))
    }
}

/// The number a run of decimal digits stands for, most significant first.
pub open spec fn digits_value(s: Seq<char>) -> int
    decreases s.len(),
{
    if s.len() == 0 {
        0
    } else {
        digits_value(s.drop_last()) * 10 + ((s.last() as int) - 48)
    }
}

/// A number written in decimal is a non-empty run of the digits `0`..`9`, with no leading
/// zero but for zero itself, that reads back as the number.
pub proof fn law_decimal_reads_back(n: nat)
    ensures
        decimal(n).len() >= 1,
        forall|i: int| 0 <= i < decimal(n).len() ==> '0' <= #[trigger] decimal(n)[i] && decimal(n)[i] <= '9',
        decimal(n)[0] == '0' ==> n == 0,
        digits_value(decimal(n)) == n,
    decreases n,
{
    if n < 10 {
        let d = decimal(n);
        assert(d.drop_last() =~= Seq::<char>::empty());
        assert(d.last() == digit_char(n));
        assert((digit_char(n) as int) == 48 + n);
        assert(digits_value(d.drop_last()) == 0);
        assert(digits_value(d) == digits_value(d.drop_last()) * 10 + ((d.last() as int) - 48));
    } else {
        let q: nat = n / 10;
        let r: nat = n % 10;
        law_decimal_reads_back(q);
        let d = decimal(n);
        assert(d == decimal(q).push(digit_char(r)));
        assert(d.drop_last() =~= decimal(q));
        assert((digit_char(r) as int) == 48 + r);
        assert(n == q * 10 + r);
        assert(d.last() == digit_char(r));
        assert(digits_value(d) == digits_value(d.drop_last()) * 10 + ((d.last() as int) - 48));
        assert forall|i: int| 0 <= i < d.len() implies '0' <= #[trigger] d[i] && d[i] <= '9' by {
            if i < d.len() - 1 {
                assert(d[i] == decimal(q)[i]);
            }
        }
        assert(d[0] == decimal(q)[0]);
    }
}

/// `n` written in decimal (see [`decimal`]).
pub fn u32_to_decimal(n: u32) -> (r: String)
    ensures
        r@ == decimal(n as nat),
{
    // The digits, last one first.
    let mut digits: Vec<char> = Vec::new();
    let mut m: u32 = n;
    loop
        invariant_except_break
            m <= n,
            decimal(n as nat) == decimal(m as nat) + digits@.reverse(),
        ensures
            decimal(n as nat) == digits@.reverse(),
        decreases m,
    {
        let d: u8 = (m % 10) as u8;
        let c: char = (48u8 + d) as char;
        let ghost old_digits = digits@;
        proof {
            assert(old_digits.push(c).reverse() =~= seq![c] + old_digits.reverse());
        }
        digits.push(c);
        if m < 10 {
            proof {
                assert(decimal(m as nat) == seq![c]);
            }
            break;
        }
        proof {
            assert(decimal(m as nat) == decimal((m / 10) as nat).push(c));
            assert(decimal((m / 10) as nat).push(c) + old_digits.reverse()
                =~= decimal((m / 10) as nat) + (seq![c] + old_digits.reverse()));
        }
        m = m / 10;
    }
    let mut r = String::new();
    let mut i: usize = digits.len();
    while i > 0
        invariant
            i <= digits@.len(),
            r@ == digits@.subrange(i as int, digits@.len() as int).reverse(),
        decreases i,
    {
        i = i - 1;
        push_char(&mut r, digits[i]);
        proof {
            assert(digits@.subrange(i as int, digits@.len() as int).reverse()
                =~= digits@.subrange(i + 1, digits@.len() as int).reverse().push(digits@[i as int]));
        }
    }
    proof {
        assert(digits@.subrange(0, digits@.len() as int) =~= digits@);
    }
    r
}


/// One piece of content of a mod, as the mod's manifest lists it, with the chunks it is
/// written as.
pub struct ContentData {
    pub enabled: bool,
    /// The id of this piece of content among all content: the mod's id, `_`, its number.
    pub full_id: String,
    /// The number of this piece of content in its mod.
    pub id: u32,
    /// The type of this content, as its content window defines it.
    pub content_type: String,
    /// Where this content is stored, relative to the mod folder.
    pub relative_path: String,
    /// The chunks this content is written as.
    pub subcontent: Vec<SubcontentBox>,
    /// The arguments for each chunk, one list per chunk.
    pub subcontent_args: Vec<Vec<String>>,
}

/// The arguments of each chunk, as text.
pub open spec fn args_view(a: Seq<Vec<String>>) -> Seq<Seq<Seq<char>>> {
    a.map_values(|v: Vec<String>| crate::forms::strings_view(v@))
}

impl ContentData {
    /// Content numbered `id`, under `full_id`, stored at `relative_path`; not enabled, of no
    /// type yet, with no chunks.
    pub fn new(id: u32, full_id: String, relative_path: String) -> (r: Self)
        ensures
            r.id == id,
            r.full_id@ == full_id@,
            r.relative_path@ == relative_path@,
            !r.enabled,
            r.content_type@ == Seq::<char>::empty(),
            r.subcontent_spec().len() == 0,
            r.args_spec().len() == 0,
    {
        let r = ContentData {
            enabled: false,
            full_id,
            id,
            content_type: String::new(),
            relative_path,
            subcontent: Vec::new(),
            subcontent_args: Vec::new(),
        };
        proof {
            assert(args_view(r.subcontent_args@) =~= Seq::<Seq<Seq<char>>>::empty());
        }
        r
    }

    /// The chunks this content is written as.
    pub open spec fn subcontent_spec(&self) -> Seq<SubcontentBox> {
        self.subcontent@
    }

    /// The arguments of each chunk.
    pub open spec fn args_spec(&self) -> Seq<Seq<Seq<char>>> {
        args_view(self.subcontent_args@)
    }

    pub fn full_id(&self) -> (r: String)
        ensures
            r@ == self.full_id@,
    {
        self.full_id.clone()
    }

    pub fn relative_path(&self) -> (r: String)
        ensures
            r@ == self.relative_path@,
    {
        self.relative_path.clone()
    }

    /// Sets the chunks and their arguments, one list of arguments per chunk.
    pub fn set_subcontent(&mut self, subcontent: Vec<SubcontentBox>, args: Vec<Vec<String>>)
        requires
            subcontent@.len() == args@.len(),
        ensures
            final(self).subcontent_spec() == subcontent@,
            final(self).args_spec() == args_view(args@),
            final(self).id == old(self).id,
            final(self).full_id == old(self).full_id,
            final(self).relative_path == old(self).relative_path,
            final(self).enabled == old(self).enabled,
            final(self).content_type == old(self).content_type,
    {
        self.subcontent = subcontent;
        self.subcontent_args = args;
    }

    /// The chunks.
    pub fn subcontent(&self) -> (r: &Vec<SubcontentBox>)
        ensures
            r@ == self.subcontent_spec(),
    {
        &self.subcontent
    }

    /// The arguments of the chunks.
    pub fn subcontent_args(&self) -> (r: &Vec<Vec<String>>)
        ensures
            args_view(r@) == self.args_spec(),
    {
        &self.subcontent_args
    }
}

/// A folder name that `Path::join` adjoins as one relative component on every platform: not
/// empty, not `.` or `..`, with no separator, drive or prefix character in it; and a base
/// that does not carry a verbatim prefix (`\\?\`), under which the joined path is normalised.
pub open spec fn plain_join(base: Seq<char>, name: Seq<char>) -> bool {
    &&& name.len() > 0
    &&& name != seq!['.']
    &&& name != seq!['.', '.']
    &&& !name.contains('/')
    &&& !name.contains('\\')
    &&& !name.contains(':')
    &&& !(base.len() >= 4 && base.take(4) == seq!['\\', '\\', '?', '\\'])
}

/// `path` is `base`, then at most one separator, then `name`.
pub open spec fn joined_path(base: Seq<char>, name: Seq<char>, path: Seq<char>) -> bool {
    &&& base.len() + name.len() <= path.len() <= base.len() + name.len() + 1
    &&& path.take(base.len() as int) == base
    &&& path.skip(path.len() - name.len()) == name
}

/// `Path::join` then `to_string_lossy`: `name` adjoined to `base` as a path.
///
/// Claimed, as std documents `Path::join` and `PathBuf::push`: a relative name is appended to
/// the base, with a separator added where the base does not end in one (no conversion is lossy,
/// both being UTF-8 text). Which separator, and what becomes of a name that is absolute or
/// carries a prefix, depends on the platform, and is not stated.
#[verifier::external_body]
fn path_join(base: &str, name: &str) -> (r: String)
    ensures
        plain_join(base@, name@) ==> joined_path(base@, name@, r@),
{
    std::path::Path::new(base).join(name).to_string_lossy().into_owned()
}

/// One mod: its name, its id, its folder and the content it holds.
pub struct ModStore {
    name: String,
    id: String,
    /// The folder where this mod is stored.
    mod_folder: String,
    /// The content of the mod, in the order it was added.
    store: Vec<ContentData>,
}

impl ModStore {
    pub closed spec fn name_spec(&self) -> Seq<char> {
        self.name@
    }

    pub closed spec fn id_spec(&self) -> Seq<char> {
        self.id@
    }

    pub closed spec fn folder_spec(&self) -> Seq<char> {
        self.mod_folder@
    }

    pub closed spec fn contents(&self) -> Seq<ContentData> {
        self.store@
    }

    /// The id of a mod's name (see [`to_id`]).
    pub fn string_to_id(string: &String) -> (r: String)
        ensures
            r@ == to_id(string@),
    {
        string_to_id(string)
    }

    /// A mod named `name`, stored in `mod_dir`, with no content yet.
    fn new(name: String, mod_dir: String) -> (r: Self)
        ensures
            r.name_spec() == name@,
            r.id_spec() == to_id(name@),
            r.folder_spec() == mod_dir@,
            r.contents().len() == 0,
    {
        let id = ModStore::string_to_id(&name);
        ModStore { name, id, mod_folder: mod_dir, store: Vec::new() }
    }

    /// A new mod named `name`, in the folder of that name under `base_mods_folder`.
    pub fn new_folder(base_mods_folder: &String, name: String) -> (r: Self)
        ensures
            r.name_spec() == name@,
            r.id_spec() == to_id(name@),
            r.contents().len() == 0,
            plain_join(base_mods_folder@, name@) ==> joined_path(base_mods_folder@, name@, r.folder_spec()),
    {
        let mod_dir = path_join(base_mods_folder.as_str(), name.as_str());
        ModStore::new(name, mod_dir)
    }

    /// The mod named `store_name` that is stored in `mod_dir`, with no content read yet.
    pub fn from_folder(store_name: String, mod_dir: String) -> (r: Self)
        ensures
            r.name_spec() == store_name@,
            r.id_spec() == to_id(store_name@),
            r.folder_spec() == mod_dir@,
            r.contents().len() == 0,
    {
        ModStore::new(store_name, mod_dir)
    }

    pub fn name(&self) -> (r: String)
        ensures
            r@ == self.name_spec(),
    {
        self.name.clone()
    }

    pub fn id(&self) -> (r: String)
        ensures
            r@ == self.id_spec(),
    {
        self.id.clone()
    }

    pub fn mod_folder(&self) -> (r: String)
        ensures
            r@ == self.folder_spec(),
    {
        self.mod_folder.clone()
    }

    /// The number of pieces of content in the mod.
    pub fn n_items(&self) -> (r: usize)
        ensures
            r == self.contents().len(),
    {
        self.store.len()
    }

    /// The content numbered `i`.
    pub fn item(&self, i: usize) -> (r: &ContentData)
        requires
            i < self.contents().len(),
        ensures
            *r == self.contents()[i as int],
    {
        &self.store[i]
    }

    /// Adds a piece of content that was read from the mod's manifest (or newly written).
    pub fn read_manifest_content(&mut self, dat: ContentData)
        ensures
            final(self).contents() == old(self).contents().push(dat),
            final(self).name_spec() == old(self).name_spec(),
            final(self).id_spec() == old(self).id_spec(),
            final(self).folder_spec() == old(self).folder_spec(),
    {
        self.store.push(dat);
    }

    /// The last step of adding content: the content is kept with the mod only where its chunks
    /// and its manifest item were both written (`written`); otherwise the mod is left as it
    /// was. Returns whether it was kept.
    pub fn keep_written_content(&mut self, dat: ContentData, written: bool) -> (r: bool)
        ensures
            r == written,
            written ==> final(self).contents() == old(self).contents().push(dat),
            !written ==> final(self).contents() == old(self).contents(),
            final(self).name_spec() == old(self).name_spec(),
            final(self).id_spec() == old(self).id_spec(),
            final(self).folder_spec() == old(self).folder_spec(),
    {
        if written {
            self.read_manifest_content(dat);
        }
        written
    }

    /// The next piece of content of this mod: numbered by how many the mod holds, with the
    /// full id `<mod id>_<number>`, stored at `game_folder`, written as `subcontent` with
    /// `args`. It is not added yet: that follows once it has been written.
    pub fn new_content_data(&self, game_folder: String, subcontent: Vec<SubcontentBox>, args: Vec<Vec<String>>) -> (r: ContentData)
        requires
            self.contents().len() <= u32::MAX,
            subcontent@.len() == args@.len(),
        ensures
            r.id == self.contents().len(),
            r.full_id@ == self.id_spec() + seq!['_'] + decimal(self.contents().len()),
            r.relative_path@ == game_folder@,
            !r.enabled,
            r.content_type@ == Seq::<char>::empty(),
            r.subcontent_spec() == subcontent@,
            r.args_spec() == args_view(args@),
    {
        let id: u32 = self.store.len() as u32;
        let mut content_id = self.id.clone();
        push_char(&mut content_id, '_');
        let num = u32_to_decimal(id);
        content_id.append(num.as_str());
        let mut data = ContentData::new(id, content_id, game_folder);
        data.set_subcontent(subcontent, args);
        data
    }

    /// Writes `data` (whose members, as JSON, are `data_json`) into the mod's manifest
    /// (`None`: there is none yet), under the content's full id; see
    /// [`ManifestItem::write_to_mod`].
    pub fn write_to_manifest(
        &self,
        data: &ContentData,
        data_json: serde_json::Map<String, serde_json::Value>,
        manifest: Option<Vec<u8>>,
    ) -> (r: Option<Result<Vec<u8>, ManifestError>>)
        ensures
            match upsert_spec(manifest_input(manifest), data.full_id@, item_text(data_json, data.full_id@)) {
                None => r is None,
                Some(x) => r matches Some(y) && bytes_result(y) == x,
            },
    {
        let item = ManifestItem::new(data_json);
        item.write_to_mod(data.full_id(), manifest)
    }
}


/// No two mods in `v` share a name.
pub open spec fn distinct_names(v: Seq<ModStore>) -> bool {
    forall|i: int, j: int| 0 <= i < j < v.len() ==> #[trigger] v[i].name_spec() != #[trigger] v[j].name_spec()
}

/// Whether a mod in `v` is named `k`.
pub open spec fn has_name(v: Seq<ModStore>, k: Seq<char>) -> bool {
    exists|i: int| 0 <= i < v.len() && #[trigger] v[i].name_spec() == k
}

/// The mods of `v` by name (each name standing for the mod that has it).
pub open spec fn mods_by_name(v: Seq<ModStore>) -> Map<Seq<char>, ModStore> {
    Map::new(
        |k: Seq<char>| has_name(v, k),
        |k: Seq<char>| v[choose|i: int| 0 <= i < v.len() && #[trigger] v[i].name_spec() == k],
    )
}

/// In mods with distinct names, the mod at `i` is the one its name stands for.
proof fn lemma_by_name_at(v: Seq<ModStore>, i: int)
    requires
        distinct_names(v),
        0 <= i < v.len(),
    ensures
        mods_by_name(v).contains_key(v[i].name_spec()),
        mods_by_name(v)[v[i].name_spec()] == v[i],
{
    let k = v[i].name_spec();
    assert(has_name(v, k));
    let j = choose|j: int| 0 <= j < v.len() && #[trigger] v[j].name_spec() == k;
    if j != i {
        if j < i {
            assert(v[j].name_spec() != v[i].name_spec());
        } else {
            assert(v[i].name_spec() != v[j].name_spec());
        }
    }
}

/// The mods of a session, by name.
pub struct ModManager {
    mods: Vec<ModStore>,
}

impl ModManager {
    #[verifier::type_invariant]
    closed spec fn wf(&self) -> bool {
        distinct_names(self.mods@)
    }
}

impl View for ModManager {
    type V = Map<Seq<char>, ModStore>;

    closed spec fn view(&self) -> Map<Seq<char>, ModStore> {
        mods_by_name(self.mods@)
    }
}

impl ModManager {
    /// No mods.
    pub fn new() -> (r: Self)
        ensures
            r@ == Map::<Seq<char>, ModStore>::empty(),
    {
        let r = ModManager { mods: Vec::new() };
        assert(r@ =~= Map::<Seq<char>, ModStore>::empty());
        r
    }

    fn find(&self, name: &String) -> (r: Option<usize>)
        ensures
            r is None <==> !self@.contains_key(name@),
            r matches Some(i) ==> i < self.mods@.len() && self.mods@[i as int].name_spec() == name@,
    {
        let mut i: usize = 0;
        while i < self.mods.len()
            invariant
                i <= self.mods@.len(),
                forall|j: int| 0 <= j < i ==> #[trigger] self.mods@[j].name_spec() != name@,
            decreases self.mods@.len() - i,
        {
            if self.mods[i].name.eq(name) {
                proof {
                    assert(self.mods@[i as int].name_spec() == name@);
                    assert(has_name(self.mods@, name@));
                }
                return Some(i);
            }
            i = i + 1;
        }
        None
    }

    /// The mod named `mod_name`, if there is one.
    pub fn get_mod(&self, mod_name: &String) -> (r: Option<&ModStore>)
        ensures
            r is Some <==> self@.contains_key(mod_name@),
            r matches Some(m) ==> *m == self@[mod_name@],
    {
        proof {
            use_type_invariant(self);
        }
        match self.find(mod_name) {
            Some(i) => {
                proof {
                    lemma_by_name_at(self.mods@, i as int);
                }
                Some(&self.mods[i])
            },
            None => None,
        }
    }

    /// Adds a mod; it takes the place of any mod of the same name.
    pub fn add_mod(&mut self, mod_store: ModStore)
        ensures
            final(self)@ == old(self)@.insert(mod_store.name_spec(), mod_store),
    {
        proof {
            use_type_invariant(&*self);
        }
        let ghost old_mods = self.mods@;
        let ghost k = mod_store.name_spec();
        match self.find(&mod_store.name) {
            Some(i) => {
                let mut mods: Vec<ModStore> = Vec::new();
                std::mem::swap(&mut mods, &mut self.mods);
                mods.set(i, mod_store);
                proof {
                    lemma_replace_by_name(old_mods, i as int, mods@[i as int]);
                }
                self.mods = mods;
            },
            None => {
                let mut mods: Vec<ModStore> = Vec::new();
                std::mem::swap(&mut mods, &mut self.mods);
                mods.push(mod_store);
                proof {
                    lemma_push_by_name(old_mods, mods@.last());
                }
                self.mods = mods;
            },
        }
    }

    /// Forgets the mod named `mod_name` (its folder is removed by the caller).
    pub fn delete_mod(&mut self, mod_name: &String)
        ensures
            final(self)@ == old(self)@.remove(mod_name@),
    {
        proof {
            use_type_invariant(&*self);
        }
        let ghost old_mods = self.mods@;
        match self.find(mod_name) {
            Some(i) => {
                let mut mods: Vec<ModStore> = Vec::new();
                std::mem::swap(&mut mods, &mut self.mods);
                mods.remove(i);
                proof {
                    lemma_remove_by_name(old_mods, i as int);
                }
                self.mods = mods;
            },
            None => {
                assert(self@ =~= old(self)@.remove(mod_name@));
            },
        }
    }

    /// Deleting the mod shown starts by asking for confirmation: the mod's name and the
    /// question to ask (nothing when no mod is shown).
    pub fn start_mod_deletion(&self, window: &MainMenuWindow) -> (r: Option<(String, String)>)
        requires
            window.wf(),
        ensures
            match visible_name(window@) {
                None => r is None,
                Some(n) => r matches Some(p) && p.0@ == n && p.1@ == "Are you sure you want to delete "@ + n + "?"@,
            },
    {
        match window.visible_mod_stack_name() {
            None => None,
            Some(name) => {
                let mut msg = String::from_str("Are you sure you want to delete ");
                msg.append(name.as_str());
                msg.append("?");
                Some((name, msg))
            },
        }
    }

    /// Forgets every mod.
    pub fn clear_mods(&mut self)
        ensures
            final(self)@ == Map::<Seq<char>, ModStore>::empty(),
    {
        self.mods = Vec::new();
        assert(self@ =~= Map::<Seq<char>, ModStore>::empty());
    }
}

proof fn lemma_push_by_name(v: Seq<ModStore>, m: ModStore)
    requires
        distinct_names(v),
        !mods_by_name(v).contains_key(m.name_spec()),
    ensures
        distinct_names(v.push(m)),
        mods_by_name(v.push(m)) == mods_by_name(v).insert(m.name_spec(), m),
{
    let w = v.push(m);
    assert forall|i: int, j: int| 0 <= i < j < w.len() implies #[trigger] w[i].name_spec() != #[trigger] w[j].name_spec() by {
        if j == v.len() {
            assert(v[i].name_spec() == w[i].name_spec());
            if v[i].name_spec() == m.name_spec() {
                assert(has_name(v, m.name_spec()));
            }
        } else {
            assert(v[i] == w[i] && v[j] == w[j]);
        }
    }
    assert forall|k: Seq<char>| #[trigger] mods_by_name(w).contains_key(k) == mods_by_name(v).insert(m.name_spec(), m).contains_key(k) by {
        if has_name(w, k) {
            let i = choose|i: int| 0 <= i < w.len() && #[trigger] w[i].name_spec() == k;
            if i < v.len() {
                assert(v[i] == w[i]);
            }
        }
        if has_name(v, k) {
            let i = choose|i: int| 0 <= i < v.len() && #[trigger] v[i].name_spec() == k;
            assert(v[i] == w[i]);
        }
        if k == m.name_spec() {
            assert(w[v.len() as int] == m);
        }
    }
    assert forall|k: Seq<char>| #[trigger] mods_by_name(w).contains_key(k) implies mods_by_name(w)[k] == mods_by_name(v).insert(m.name_spec(), m)[k] by {
        let i = choose|i: int| 0 <= i < w.len() && #[trigger] w[i].name_spec() == k;
        lemma_by_name_at(w, i);
        if i < v.len() {
            assert(v[i] == w[i]);
            lemma_by_name_at(v, i);
        }
    }
    assert(mods_by_name(w) =~= mods_by_name(v).insert(m.name_spec(), m));
}

proof fn lemma_replace_by_name(v: Seq<ModStore>, i: int, m: ModStore)
    requires
        distinct_names(v),
        0 <= i < v.len(),
        v[i].name_spec() == m.name_spec(),
    ensures
        distinct_names(v.update(i, m)),
        mods_by_name(v.update(i, m)) == mods_by_name(v).insert(m.name_spec(), m),
{
    let w = v.update(i, m);
    assert forall|a: int, b: int| 0 <= a < b < w.len() implies #[trigger] w[a].name_spec() != #[trigger] w[b].name_spec() by {
        assert(w[a].name_spec() == v[a].name_spec());
        assert(w[b].name_spec() == v[b].name_spec());
    }
    assert forall|k: Seq<char>| #[trigger] has_name(w, k) == has_name(v, k) by {
        if has_name(w, k) {
            let a = choose|a: int| 0 <= a < w.len() && #[trigger] w[a].name_spec() == k;
            assert(v[a].name_spec() == w[a].name_spec());
        }
        if has_name(v, k) {
            let a = choose|a: int| 0 <= a < v.len() && #[trigger] v[a].name_spec() == k;
            assert(v[a].name_spec() == w[a].name_spec());
        }
    }
    assert forall|k: Seq<char>| #[trigger] mods_by_name(w).contains_key(k) implies mods_by_name(w)[k] == mods_by_name(v).insert(m.name_spec(), m)[k] by {
        let a = choose|a: int| 0 <= a < w.len() && #[trigger] w[a].name_spec() == k;
        lemma_by_name_at(w, a);
        if a != i {
            assert(v[a] == w[a]);
            lemma_by_name_at(v, a);
        }
    }
    lemma_by_name_at(v, i);
    assert(mods_by_name(w) =~= mods_by_name(v).insert(m.name_spec(), m));
}

proof fn lemma_remove_by_name(v: Seq<ModStore>, i: int)
    requires
        distinct_names(v),
        0 <= i < v.len(),
    ensures
        distinct_names(v.remove(i)),
        mods_by_name(v.remove(i)) == mods_by_name(v).remove(v[i].name_spec()),
{
    let w = v.remove(i);
    let n = v[i].name_spec();
    assert forall|a: int, b: int| 0 <= a < b < w.len() implies #[trigger] w[a].name_spec() != #[trigger] w[b].name_spec() by {
        let a2 = if a < i { a } else { a + 1 };
        let b2 = if b < i { b } else { b + 1 };
        assert(w[a] == v[a2] && w[b] == v[b2]);
        assert(v[a2].name_spec() != v[b2].name_spec());
    }
    assert forall|k: Seq<char>| #[trigger] has_name(w, k) == (has_name(v, k) && k != n) by {
        if has_name(w, k) {
            let a = choose|a: int| 0 <= a < w.len() && #[trigger] w[a].name_spec() == k;
            let a2 = if a < i { a } else { a + 1 };
            assert(w[a] == v[a2]);
            if k == n {
                if a2 < i {
                    assert(v[a2].name_spec() != v[i].name_spec());
                } else {
                    assert(v[i].name_spec() != v[a2].name_spec());
                }
            }
        }
        if has_name(v, k) && k != n {
            let a = choose|a: int| 0 <= a < v.len() && #[trigger] v[a].name_spec() == k;
            let a1 = if a < i { a } else { a - 1 };
            assert(w[a1] == v[a]);
        }
    }
    assert forall|k: Seq<char>| #[trigger] mods_by_name(w).contains_key(k) implies mods_by_name(w)[k] == mods_by_name(v)[k] by {
        let a = choose|a: int| 0 <= a < w.len() && #[trigger] w[a].name_spec() == k;
        lemma_by_name_at(w, a);
        let a2 = if a < i { a } else { a + 1 };
        assert(w[a] == v[a2]);
        lemma_by_name_at(v, a2);
    }
    assert(mods_by_name(w) =~= mods_by_name(v).remove(n));
}

/// Ids are stable: the id of an id is itself.
pub proof fn law_id_idempotent(s: Seq<char>)
    ensures
        to_id(to_id(s)) == to_id(s),
{
    assert(to_id(to_id(s)) =~= to_id(s));
}

/// A mod that was added is found under its name, and the others stay as they were.
pub proof fn law_added_mod_found(before: Map<Seq<char>, ModStore>, m: ModStore, other: Seq<char>)
    requires
        other != m.name_spec(),
    ensures
        before.insert(m.name_spec(), m).contains_key(m.name_spec()),
        before.insert(m.name_spec(), m)[m.name_spec()] == m,
        before.insert(m.name_spec(), m).contains_key(other) == before.contains_key(other),
        before.contains_key(other) ==> before.insert(m.name_spec(), m)[other] == before[other],
{
}

/// A mod that was deleted is found no more, and the others stay as they were.
pub proof fn law_deleted_mod_gone(before: Map<Seq<char>, ModStore>, name: Seq<char>, other: Seq<char>)
    requires
        other != name,
    ensures
        !before.remove(name).contains_key(name),
        before.remove(name).contains_key(other) == before.contains_key(other),
        before.contains_key(other) ==> before.remove(name)[other] == before[other],
{
}

/// Deleting a mod undoes adding it: adding a mod and then deleting its name leaves the other
/// mods as they were, and none under that name.
pub proof fn law_add_then_delete(before: Map<Seq<char>, ModStore>, m: ModStore)
    ensures
        before.insert(m.name_spec(), m).remove(m.name_spec()) == before.remove(m.name_spec()),
{
    assert(before.insert(m.name_spec(), m).remove(m.name_spec()) =~= before.remove(m.name_spec()));
}

} // verus!
