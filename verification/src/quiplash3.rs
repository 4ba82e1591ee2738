//! Quiplash 3 round prompts: a window with one form per round.
use vstd::prelude::*;
use vstd::string::*;
use crate::forms::{
    copy_strings, entries_map, find_entry, some_required_invalid, strings_view, submitted,
    FormEntry, FormManager, FormObjectSpec, FormValue, FormValueSpec,
};

verus! {

/// What a Quiplash 3 round prompt is written to the manifest as.
pub struct Quiplash3RoundManifestItem {
    pub includes_player_name: bool,
    pub prompt: String,
    pub safety_quips: Vec<String>,
    pub us: bool,
    pub x: bool,
}

/// The model of a round prompt's manifest item.
pub struct RoundItemSpec {
    pub includes_player_name: bool,
    pub prompt: Seq<char>,
    pub safety_quips: Seq<Seq<char>>,
    pub us: bool,
    pub x: bool,
}

impl View for Quiplash3RoundManifestItem {
    type V = RoundItemSpec;

    open spec fn view(&self) -> RoundItemSpec {
        RoundItemSpec {
            includes_player_name: self.includes_player_name,
            prompt: self.prompt@,
            safety_quips: strings_view(self.safety_quips@),
            us: self.us,
            x: self.x,
        }
    }
}

// The labels of the form fields of a round prompt.
pub open spec fn PROMPT_TEXT() -> Seq<char> { "Prompt Text"@ }
pub open spec fn PLAYER_NAME() -> Seq<char> { "Includes Player Name"@ }
pub open spec fn SAFETY_QUIPS() -> Seq<char> { "Safety Quips"@ }
pub open spec fn US_SPECIFIC() -> Seq<char> { "Content is US-Specific"@ }
pub open spec fn ADULT() -> Seq<char> { "Contains Adult Content"@ }

/// The name of a round, by the index of its page.
pub open spec fn round_name(idx: int) -> Seq<char> {
    if idx == 0 {
        "Round1"@
    } else if idx == 1 {
        "Round2"@
    } else {
        "FinalRound"@
    }
}

/// The page of a round, by its name.
pub open spec fn round_index(name: Seq<char>) -> Option<int> {
    if name == "Round1"@ {
        Some(0)
    } else if name == "Round2"@ {
        Some(1)
    } else if name == "FinalRound"@ {
        Some(2)
    } else {
        None
    }
}

/// The submitted values hold every field of a round prompt, each of the right kind.
pub open spec fn has_round_fields(m: Map<Seq<char>, FormValueSpec>) -> bool {
    &&& m.contains_key(PROMPT_TEXT()) && m[PROMPT_TEXT()] is Text
    &&& m.contains_key(PLAYER_NAME()) && m[PLAYER_NAME()] is Bool
    &&& m.contains_key(SAFETY_QUIPS()) && m[SAFETY_QUIPS()] is TextList
    &&& m.contains_key(US_SPECIFIC()) && m[US_SPECIFIC()] is Bool
    &&& m.contains_key(ADULT()) && m[ADULT()] is Bool
}

/// The manifest item that the submitted values stand for.
pub open spec fn item_of(m: Map<Seq<char>, FormValueSpec>) -> RoundItemSpec {
    RoundItemSpec {
        includes_player_name: m[PLAYER_NAME()]->Bool_0,
        prompt: m[PROMPT_TEXT()]->Text_0,
        safety_quips: m[SAFETY_QUIPS()]->TextList_0,
        us: m[US_SPECIFIC()]->Bool_0,
        x: m[ADULT()]->Bool_0,
    }
}

/// The form values that a manifest item is loaded into the form as.
pub open spec fn values_of(item: RoundItemSpec) -> Map<Seq<char>, FormValueSpec> {
    map![
        PROMPT_TEXT() => FormValueSpec::Text(item.prompt),
        PLAYER_NAME() => FormValueSpec::Bool(item.includes_player_name),
        SAFETY_QUIPS() => FormValueSpec::TextList(item.safety_quips),
        US_SPECIFIC() => FormValueSpec::Bool(item.us),
        ADULT() => FormValueSpec::Bool(item.x),
    ]
}

/// The form of one round's prompt.
pub struct QuiplashGenericRoundPrompt {
    /// The final round has no audio or transcript fields.
    pub final_round: bool,
    pub form_manager: FormManager,
}

impl QuiplashGenericRoundPrompt {
    /// Whether the text, audio and transcript filters are shown: on every round but the
    /// final one.
    pub fn filters_visible(&self) -> (r: bool)
        ensures
            r == !self.final_round,
    {
        !self.final_round
    }

    /// Submits the form (see [`FormManager::submit`]).
    pub fn submit(&self) -> (r: Option<Vec<FormEntry>>)
        ensures
            r is None <==> some_required_invalid(self.form_manager@),
            r matches Some(v) ==> crate::forms::distinct_labels(v@) && entries_map(v@) == submitted(self.form_manager@),
    {
        self.form_manager.submit()
    }

    /// Checks the form (see [`FormManager::is_valid`]).
    pub fn is_valid(&mut self) -> (r: bool)
        ensures
            r == !some_required_invalid(old(self).form_manager@),
            final(self).final_round == old(self).final_round,
            final(self).form_manager@.len() == old(self).form_manager@.len(),
            forall|i: int| 0 <= i < old(self).form_manager@.len() ==> #[trigger] final(self).form_manager@[i] == (if old(self).form_manager@[i].required {
                FormObjectSpec { error_shown: !crate::forms::object_valid(old(self).form_manager@[i]), ..old(self).form_manager@[i] }
            } else {
                old(self).form_manager@[i]
            }),
            final(self).form_manager@ == crate::forms::highlighted(old(self).form_manager@),
    {
        self.form_manager.is_valid()
    }
}

/// The window of Quiplash 3 round prompts: one page per round (round 1, round 2, final round).
pub struct QuiplashRoundPrompt {
    pages: Vec<QuiplashGenericRoundPrompt>,
    /// The page shown.
    current_page: usize,
}

/// The text of a value that is known to be a text.
fn text_of(v: &FormValue) -> (r: String)
    requires
        v@ is Text,
    ensures
        r@ == v@->Text_0,
{
    match v {
        FormValue::Text(s) => s.clone(),
        _ => String::new(),
    }
}

fn bool_of(v: &FormValue) -> (r: bool)
    requires
        v@ is Bool,
    ensures
        r == v@->Bool_0,
{
    match v {
        FormValue::Bool(b) => *b,
        _ => false,
    }
}

fn list_of(v: &FormValue) -> (r: Vec<String>)
    requires
        v@ is TextList,
    ensures
        strings_view(r@) == v@->TextList_0,
{
    match v {
        FormValue::TextList(l) => copy_strings(l),
        _ => Vec::new(),
    }
}

/// The value under `label` among entries with distinct labels that stand for a map holding it.
fn value_under(values: &Vec<FormEntry>, label: &String) -> (r: usize)
    requires
        crate::forms::distinct_labels(values@),
        entries_map(values@).contains_key(label@),
    ensures
        r < values@.len(),
        values@[r as int].value@ == entries_map(values@)[label@],
{
    proof {
        lemma_entries_lookup(values@, label@);
    }
    match find_entry(values, label) {
        Some(k) => k,
        None => {
            proof {
                assert(false);
            }
            0
        },
    }
}

/// In entries with distinct labels, the first entry under a label holds the map's value.
proof fn lemma_entries_lookup(v: Seq<FormEntry>, l: Seq<char>)
    requires
        crate::forms::distinct_labels(v),
        entries_map(v).contains_key(l),
    ensures
        crate::forms::lookup(v, l) == Some(entries_map(v)[l]),
    decreases v.len(),
{
    if v[0].label@ == l {
        lemma_entries_last(v, l);
    } else {
        assert(crate::forms::distinct_labels(v.drop_first()));
        lemma_entries_drop_first(v, l);
        lemma_entries_lookup(v.drop_first(), l);
    }
}

proof fn lemma_entries_last(v: Seq<FormEntry>, l: Seq<char>)
    requires
        crate::forms::distinct_labels(v),
        v.len() > 0,
        v[0].label@ == l,
    ensures
        entries_map(v).contains_key(l),
        entries_map(v)[l] == v[0].value@,
    decreases v.len(),
{
    if v.len() > 1 {
        assert(crate::forms::distinct_labels(v.drop_last()));
        lemma_entries_last(v.drop_last(), l);
        assert(v.last().label@ != l);
    }
}

proof fn lemma_entries_drop_first(v: Seq<FormEntry>, l: Seq<char>)
    requires
        crate::forms::distinct_labels(v),
        v.len() > 0,
        v[0].label@ != l,
    ensures
        entries_map(v).contains_key(l) == entries_map(v.drop_first()).contains_key(l),
        entries_map(v).contains_key(l) ==> entries_map(v)[l] == entries_map(v.drop_first())[l],
    decreases v.len(),
{
    if v.len() == 1 {
        assert(v.drop_first().len() == 0);
        assert(v.drop_last().len() == 0);
        assert(entries_map(v.drop_first()) == Map::<Seq<char>, FormValueSpec>::empty());
        assert(entries_map(v.drop_last()) == Map::<Seq<char>, FormValueSpec>::empty());
        assert(v.last() == v[0]);
    } else {
        let a = v.drop_last();
        let b = v.drop_first();
        assert(a[0] == v[0]);
        assert(crate::forms::distinct_labels(a));
        lemma_entries_drop_first(a, l);
        assert(a.drop_first() =~= b.drop_last());
        assert(b.last() == v.last());
        assert(entries_map(v) == entries_map(a).insert(v.last().label@, v.last().value@));
        assert(entries_map(b) == entries_map(b.drop_last()).insert(v.last().label@, v.last().value@));
    }
}

impl QuiplashRoundPrompt {
    /// A window over the given pages, showing the first one.
    pub fn new(pages: Vec<QuiplashGenericRoundPrompt>) -> (r: Self)
        ensures
            r.pages_spec() == pages@,
            r.page_shown() == 0,
    {
        QuiplashRoundPrompt { pages, current_page: 0 }
    }

    /// The pages, in order.
    pub closed spec fn pages_spec(&self) -> Seq<QuiplashGenericRoundPrompt> {
        self.pages@
    }

    /// The index of the page shown.
    pub closed spec fn page_shown(&self) -> int {
        self.current_page as int
    }

    /// The index of the page shown (`None` when there are no pages).
    pub fn get_selected_idx(&self) -> (r: Option<u32>)
        ensures
            self.pages_spec().len() == 0 ==> r is None,
            self.pages_spec().len() > 0 && self.page_shown() <= u32::MAX ==> r == Some(self.page_shown() as u32),
    {
        if self.pages.len() == 0 {
            None
        } else if self.current_page <= u32::MAX as usize {
            Some(self.current_page as u32)
        } else {
            None
        }
    }

    /// Shows a page: `None` for the last one; an index past the pages changes nothing.
    pub fn set_selected_idx(&mut self, idx: Option<u32>)
        ensures
            final(self).pages_spec() == old(self).pages_spec(),
            final(self).page_shown() == (match idx {
                None => if old(self).pages_spec().len() > 0 {
                    old(self).pages_spec().len() - 1
                } else {
                    old(self).page_shown()
                },
                Some(i) => if i < old(self).pages_spec().len() {
                    i as int
                } else {
                    old(self).page_shown()
                },
            }),
    {
        match idx {
            None => {
                if self.pages.len() > 0 {
                    self.current_page = self.pages.len() - 1;
                }
            },
            Some(i) => {
                if (i as usize) < self.pages.len() {
                    self.current_page = i as usize;
                }
            },
        }
    }

    /// The form of the page shown.
    pub fn get_selected(&self) -> (r: &QuiplashGenericRoundPrompt)
        requires
            self.page_shown() < self.pages_spec().len(),
        ensures
            *r == self.pages_spec()[self.page_shown()],
    {
        &self.pages[self.current_page]
    }

    /// The round and the manifest item of the page shown, from its submitted form.
    pub fn finalize_content(&self) -> (r: (String, Quiplash3RoundManifestItem))
        requires
            self.page_shown() < 3,
            self.page_shown() < self.pages_spec().len(),
            !some_required_invalid(self.pages_spec()[self.page_shown()].form_manager@),
            has_round_fields(submitted(self.pages_spec()[self.page_shown()].form_manager@)),
        ensures
            r.0@ == round_name(self.page_shown()),
            r.1@ == item_of(submitted(self.pages_spec()[self.page_shown()].form_manager@)),
    {
        let selected = self.get_selected();
        let map = match selected.submit() {
            Some(m) => m,
            None => {
                proof {
                    assert(false);
                }
                Vec::new()
            },
        };
        let prompt_text = text_of(&map[value_under(&map, &String::from_str("Prompt Text"))].value);
        let player_name = bool_of(&map[value_under(&map, &String::from_str("Includes Player Name"))].value);
        let quips = list_of(&map[value_under(&map, &String::from_str("Safety Quips"))].value);
        let us = bool_of(&map[value_under(&map, &String::from_str("Content is US-Specific"))].value);
        let x = bool_of(&map[value_under(&map, &String::from_str("Contains Adult Content"))].value);
        let manifest_data = Quiplash3RoundManifestItem {
            includes_player_name: player_name,
            prompt: prompt_text,
            safety_quips: quips,
            us,
            x,
        };
        let round_str = if self.current_page == 0 {
            String::from_str("Round1")
        } else if self.current_page == 1 {
            String::from_str("Round2")
        } else {
            String::from_str("FinalRound")
        };
        (round_str, manifest_data)
    }

    /// Create was clicked: when the page shown is filled in, its content is finalized.
    /// Checking the form highlights what is not filled in.
    pub fn handle_create_clicked(&mut self) -> (r: Option<(String, Quiplash3RoundManifestItem)>)
        requires
            old(self).page_shown() < 3,
            old(self).page_shown() < old(self).pages_spec().len(),
            !some_required_invalid(old(self).pages_spec()[old(self).page_shown()].form_manager@)
                ==> has_round_fields(submitted(old(self).pages_spec()[old(self).page_shown()].form_manager@)),
        ensures
            r is Some <==> !some_required_invalid(old(self).pages_spec()[old(self).page_shown()].form_manager@),
            r matches Some(p) ==> p.0@ == round_name(old(self).page_shown())
                && p.1@ == item_of(submitted(old(self).pages_spec()[old(self).page_shown()].form_manager@)),
            final(self).page_shown() == old(self).page_shown(),
            final(self).pages_spec().len() == old(self).pages_spec().len(),
            final(self).pages_spec()[old(self).page_shown()].final_round == old(self).pages_spec()[old(self).page_shown()].final_round,
            final(self).pages_spec()[old(self).page_shown()].form_manager@
                == crate::forms::highlighted(old(self).pages_spec()[old(self).page_shown()].form_manager@),
            forall|j: int| 0 <= j < old(self).pages_spec().len() && j != old(self).page_shown()
                ==> #[trigger] final(self).pages_spec()[j] == old(self).pages_spec()[j],
    {
        let idx = self.current_page;
        let mut page = self.pages.remove(idx);
        let valid = page.is_valid();
        let ghost before = page.form_manager@;
        self.pages.insert(idx, page);
        if valid {
            proof {
                lemma_submitted_ignores_errors(old(self).pages_spec()[idx as int].form_manager@, before);
                assert(self.pages_spec()[idx as int].form_manager@ == before);
            }
            Some(self.finalize_content())
        } else {
            None
        }
    }

    /// Loads a manifest item into the page shown, then shows the page of its round
    /// (`None`: the manifest item could not be read).
    pub fn load_content(&mut self, subcontent_type: &String, item: Option<Quiplash3RoundManifestItem>) -> (r: Result<(), String>)
        requires
            old(self).page_shown() < old(self).pages_spec().len(),
        ensures
            item is None ==> r is Err && r->Err_0@ == "Could not read manifest."@ && final(self).pages_spec() == old(self).pages_spec() && final(self).page_shown() == old(self).page_shown(),
            item is Some ==> r is Ok,
            item matches Some(it) ==> ({
                let objs = old(self).pages_spec()[old(self).page_shown()].form_manager@;
                let new_objs = final(self).pages_spec()[old(self).page_shown()].form_manager@;
                &&& final(self).pages_spec().len() == old(self).pages_spec().len()
                &&& new_objs.len() == objs.len()
                &&& forall|i: int| 0 <= i < objs.len() ==> #[trigger] new_objs[i] == (if values_of(it@).contains_key(objs[i].label) {
                    FormObjectSpec { value: values_of(it@)[objs[i].label], ..objs[i] }
                } else {
                    objs[i]
                })
                &&& final(self).page_shown() == (match round_index(subcontent_type@) {
                    Some(i) => if i < old(self).pages_spec().len() { i } else { old(self).page_shown() },
                    None => old(self).pages_spec().len() - 1,
                })
            }),
    {
        match item {
            None => {
                let msg = String::from_str("Could not read manifest.");
                Err(msg)
            },
            Some(quiplash_manifest) => {
                let ghost it = quiplash_manifest@;
                let mut values: Vec<FormEntry> = Vec::new();
                values.push(FormEntry { label: String::from_str("Prompt Text"), value: FormValue::Text(quiplash_manifest.prompt) });
                values.push(FormEntry { label: String::from_str("Includes Player Name"), value: FormValue::Bool(quiplash_manifest.includes_player_name) });
                values.push(FormEntry { label: String::from_str("Safety Quips"), value: FormValue::TextList(quiplash_manifest.safety_quips) });
                values.push(FormEntry { label: String::from_str("Content is US-Specific"), value: FormValue::Bool(quiplash_manifest.us) });
                values.push(FormEntry { label: String::from_str("Contains Adult Content"), value: FormValue::Bool(quiplash_manifest.x) });
                proof {
                    lemma_round_values(values@, it);
                }
                let idx = self.current_page;
                let mut page = self.pages.remove(idx);
                page.form_manager.update_values(&values);
                self.pages.insert(idx, page);
                let round1 = String::from_str("Round1");
                let round2 = String::from_str("Round2");
                let final_round = String::from_str("FinalRound");
                let next = if subcontent_type.eq(&round1) {
                    Some(0u32)
                } else if subcontent_type.eq(&round2) {
                    Some(1u32)
                } else if subcontent_type.eq(&final_round) {
                    Some(2u32)
                } else {
                    None
                };
                self.set_selected_idx(next);
                Ok(())
            },
        }
    }
}

/// The five entries that load a manifest item look up as its form values.
proof fn lemma_round_values(v: Seq<FormEntry>, it: RoundItemSpec)
    requires
        v.len() == 5,
        v[0].label@ == PROMPT_TEXT() && v[0].value@ == FormValueSpec::Text(it.prompt),
        v[1].label@ == PLAYER_NAME() && v[1].value@ == FormValueSpec::Bool(it.includes_player_name),
        v[2].label@ == SAFETY_QUIPS() && v[2].value@ == FormValueSpec::TextList(it.safety_quips),
        v[3].label@ == US_SPECIFIC() && v[3].value@ == FormValueSpec::Bool(it.us),
        v[4].label@ == ADULT() && v[4].value@ == FormValueSpec::Bool(it.x),
    ensures
        forall|l: Seq<char>| #[trigger] crate::forms::lookup(v, l) == (if values_of(it).contains_key(l) {
            Some(values_of(it)[l])
        } else {
            None
        }),
{
    reveal_strlit("Prompt Text");
    reveal_strlit("Includes Player Name");
    reveal_strlit("Safety Quips");
    reveal_strlit("Content is US-Specific");
    reveal_strlit("Contains Adult Content");
    assert(PROMPT_TEXT().len() == 11 && PLAYER_NAME().len() == 20 && SAFETY_QUIPS().len() == 12);
    assert(US_SPECIFIC().len() == 22 && ADULT().len() == 22 && US_SPECIFIC()[4] != ADULT()[4]);
    let v1 = v.drop_first();
    let v2 = v1.drop_first();
    let v3 = v2.drop_first();
    let v4 = v3.drop_first();
    let v5 = v4.drop_first();
    assert(v1[0] == v[1] && v2[0] == v[2] && v3[0] == v[3] && v4[0] == v[4] && v5.len() == 0);
    assert forall|l: Seq<char>| #[trigger] crate::forms::lookup(v, l) == (if values_of(it).contains_key(l) {
        Some(values_of(it)[l])
    } else {
        None
    }) by {
        assert(crate::forms::lookup(v5, l) == None::<FormValueSpec>);
        assert(crate::forms::lookup(v4, l) == if v[4].label@ == l { Some(v[4].value@) } else { crate::forms::lookup(v5, l) });
        assert(crate::forms::lookup(v3, l) == if v[3].label@ == l { Some(v[3].value@) } else { crate::forms::lookup(v4, l) });
        assert(crate::forms::lookup(v2, l) == if v[2].label@ == l { Some(v[2].value@) } else { crate::forms::lookup(v3, l) });
        assert(crate::forms::lookup(v1, l) == if v[1].label@ == l { Some(v[1].value@) } else { crate::forms::lookup(v2, l) });
        assert(crate::forms::lookup(v, l) == if v[0].label@ == l { Some(v[0].value@) } else { crate::forms::lookup(v1, l) });
    }
}

/// Highlighting errors changes nothing of what a form submits.
proof fn lemma_submitted_ignores_errors(a: Seq<FormObjectSpec>, b: Seq<FormObjectSpec>)
    requires
        a.len() == b.len(),
        forall|i: int| #![trigger b[i]] 0 <= i < a.len() ==> b[i].label == a[i].label && b[i].value == a[i].value && b[i].required == a[i].required && b[i].kind == a[i].kind,
    ensures
        submitted(a) == submitted(b),
        some_required_invalid(a) == some_required_invalid(b),
    decreases a.len(),
{
    if a.len() > 0 {
        lemma_submitted_ignores_errors(a.drop_last(), b.drop_last());
        assert(a.last().label == b.last().label);
        assert(a.last().value == b.last().value);
    }
    if some_required_invalid(a) {
        let w = choose|i: int| 0 <= i < a.len() && #[trigger] a[i].required && !crate::forms::object_valid(a[i]);
        assert(b[w].required && !crate::forms::object_valid(b[w]));
    }
    if some_required_invalid(b) {
        let w = choose|i: int| 0 <= i < b.len() && #[trigger] b[i].required && !crate::forms::object_valid(b[i]);
        assert(a[w].required && !crate::forms::object_valid(a[w]));
    }
}

/// Where the games are, relative to the program.
pub const GAME_DIR: &'static str = "../games/";

/// The folder and file prefix of Quiplash 3.
pub const GAME_NAME: &'static str = "Quiplash3";

/// The first round's questions of Quiplash 3.
pub struct Round1Question;

impl Round1Question {
    /// The name of this content type.
    pub const CONTENT_NAME: &'static str = "Round1Question";

    /// The list of this content type in the game folder.
    pub fn content_path() -> (r: String)
        ensures
            r@ == round_question_path_spec(Round1Question::CONTENT_NAME@),
    {
        round_question_path(Round1Question::CONTENT_NAME)
    }

    /// The JSON that a question is saved as: nothing yet.
    pub fn save_as_json() -> (r: String)
        ensures
            r@ == Seq::<char>::empty(),
    {
        String::new()
    }
}

/// The list of a Quiplash 3 content type: `<game dir><game>/<game><content name>.jet`.
pub open spec fn round_question_path_spec(content_name: Seq<char>) -> Seq<char> {
    GAME_DIR@ + GAME_NAME@ + seq!['/'] + GAME_NAME@ + content_name + ".jet"@
}

/// The list of a Quiplash 3 content type (see [`round_question_path_spec`]).
pub fn round_question_path(content_name: &str) -> (r: String)
    ensures
        r@ == round_question_path_spec(content_name@),
{
    let mut r = String::from_str(GAME_DIR);
    r.append(GAME_NAME);
    crate::text::push_char(&mut r, '/');
    r.append(GAME_NAME);
    r.append(content_name);
    r.append(".jet");
    r
}

/// A round's name names its page again: for each of the three pages, the round it stands
/// for is looked up back to it.
pub proof fn law_round_name_round_trip(idx: int)
    requires
        0 <= idx < 3,
    ensures
        round_index(round_name(idx)) == Some(idx),
{
    reveal_strlit("Round1");
    reveal_strlit("Round2");
    reveal_strlit("FinalRound");
    assert("Round1"@ != "Round2"@ && "Round1"@ != "FinalRound"@ && "Round2"@ != "FinalRound"@) by {
        assert("Round1"@[5] != "Round2"@[5]);
        assert("Round1"@.len() != "FinalRound"@.len());
        assert("Round2"@.len() != "FinalRound"@.len());
    }
}

/// Where every object under `l` holds `v`, and some object is under `l`, the form submits
/// `v` under `l`.
proof fn lemma_submitted_uniform(s: Seq<FormObjectSpec>, l: Seq<char>, v: FormValueSpec)
    requires
        exists|i: int| 0 <= i < s.len() && #[trigger] s[i].label == l,
        forall|i: int| 0 <= i < s.len() && #[trigger] s[i].label == l ==> s[i].value == v,
    ensures
        submitted(s).contains_key(l),
        submitted(s)[l] == v,
    decreases s.len(),
{
    let last = s.len() - 1;
    if s[last].label != l {
        let w = choose|i: int| 0 <= i < s.len() && #[trigger] s[i].label == l;
        let d = s.drop_last();
        assert(d[w].label == l);
        assert forall|i: int| 0 <= i < d.len() && #[trigger] d[i].label == l implies d[i].value == v by {
            assert(d[i] == s[i]);
        }
        lemma_submitted_uniform(d, l, v);
    }
}

/// A manifest item loaded into a round's form comes back as it was when the form is
/// submitted: where the form has an object under each of the five labels of a round prompt,
/// the values loaded into it hold every field of a round prompt and stand for the item.
pub proof fn law_loaded_item_comes_back(objs: Seq<FormObjectSpec>, new_objs: Seq<FormObjectSpec>, it: RoundItemSpec)
    requires
        new_objs.len() == objs.len(),
        forall|i: int| 0 <= i < objs.len() ==> #[trigger] new_objs[i] == (if values_of(it).contains_key(objs[i].label) {
            FormObjectSpec { value: values_of(it)[objs[i].label], ..objs[i] }
        } else {
            objs[i]
        }),
        exists|i: int| 0 <= i < objs.len() && #[trigger] objs[i].label == PROMPT_TEXT(),
        exists|i: int| 0 <= i < objs.len() && #[trigger] objs[i].label == PLAYER_NAME(),
        exists|i: int| 0 <= i < objs.len() && #[trigger] objs[i].label == SAFETY_QUIPS(),
        exists|i: int| 0 <= i < objs.len() && #[trigger] objs[i].label == US_SPECIFIC(),
        exists|i: int| 0 <= i < objs.len() && #[trigger] objs[i].label == ADULT(),
    ensures
        has_round_fields(submitted(new_objs)),
        item_of(submitted(new_objs)) == it,
{
    reveal_strlit("Prompt Text");
    reveal_strlit("Includes Player Name");
    reveal_strlit("Safety Quips");
    reveal_strlit("Content is US-Specific");
    reveal_strlit("Contains Adult Content");
    assert(PROMPT_TEXT().len() == 11 && PLAYER_NAME().len() == 20 && SAFETY_QUIPS().len() == 12);
    assert(US_SPECIFIC().len() == 22 && ADULT().len() == 22 && US_SPECIFIC()[4] != ADULT()[4]);
    let vals = values_of(it);
    let labels = seq![PROMPT_TEXT(), PLAYER_NAME(), SAFETY_QUIPS(), US_SPECIFIC(), ADULT()];
    assert forall|k: int| 0 <= k < 5 implies submitted(new_objs).contains_key(#[trigger] labels[k])
        && submitted(new_objs)[labels[k]] == vals[labels[k]] by {
        let l = labels[k];
        assert(vals.contains_key(l));
        let w = choose|i: int| 0 <= i < objs.len() && #[trigger] objs[i].label == l;
        assert(new_objs[w].label == l);
        assert forall|i: int| 0 <= i < new_objs.len() && #[trigger] new_objs[i].label == l implies new_objs[i].value == vals[l] by {
            assert(new_objs[i] == (if vals.contains_key(objs[i].label) {
                FormObjectSpec { value: vals[objs[i].label], ..objs[i] }
            } else {
                objs[i]
            }));
        }
        lemma_submitted_uniform(new_objs, l, vals[l]);
    }
    assert(labels[0] == PROMPT_TEXT() && labels[1] == PLAYER_NAME() && labels[2] == SAFETY_QUIPS());
    assert(labels[3] == US_SPECIFIC() && labels[4] == ADULT());
}

} // verus!
