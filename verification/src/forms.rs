//! The form objects that content windows are made of, and the form that checks and collects
//! their values.
use vstd::prelude::*;

verus! {

/// The value of a form object.
pub enum FormValue {
    /// A checkbox's state.
    Bool(bool),
    /// An entry's text.
    Text(String),
    /// The items of an editable list.
    TextList(Vec<String>),
    /// The path of a chosen file, if any.
    File(Option<String>),
}

/// The model of a form value.
pub enum FormValueSpec {
    Bool(bool),
    Text(Seq<char>),
    TextList(Seq<Seq<char>>),
    File(Option<Seq<char>>),
}

/// The characters of each string.
pub open spec fn strings_view(v: Seq<String>) -> Seq<Seq<char>> {
    v.map_values(|s: String| s@)
}

impl View for FormValue {
    type V = FormValueSpec;

    open spec fn view(&self) -> FormValueSpec {
        match self {
            FormValue::Bool(b) => FormValueSpec::Bool(*b),
            FormValue::Text(s) => FormValueSpec::Text(s@),
            FormValue::TextList(v) => FormValueSpec::TextList(strings_view(v@)),
            FormValue::File(f) => FormValueSpec::File(
                match f {
                    Some(s) => Some(s@),
                    None => None,
                },
            ),
        }
    }
}

/// A copy of a list of strings.
pub fn copy_strings(v: &Vec<String>) -> (r: Vec<String>)
    ensures
        strings_view(r@) == strings_view(v@),
        r@.len() == v@.len(),
{
    let mut r: Vec<String> = Vec::new();
    let mut i: usize = 0;
    while i < v.len()
        invariant
            i <= v@.len(),
            r@.len() == i,
            forall|j: int| 0 <= j < i ==> #[trigger] r@[j]@ == v@[j]@,
        decreases v@.len() - i,
    {
        r.push(v[i].clone());
        i = i + 1;
    }
    proof {
        assert(strings_view(r@) =~= strings_view(v@));
    }
    r
}

impl FormValue {
    /// A copy of the value.
    pub fn copy(&self) -> (r: FormValue)
        ensures
            r@ == self@,
    {
        match self {
            FormValue::Bool(b) => FormValue::Bool(*b),
            FormValue::Text(s) => FormValue::Text(s.clone()),
            FormValue::TextList(v) => FormValue::TextList(copy_strings(v)),
            FormValue::File(f) => FormValue::File(
                match f {
                    Some(s) => Some(s.clone()),
                    None => None,
                },
            ),
        }
    }
}

/// Whether a labelled box with this value counts as filled in: a list when it is empty (sic),
/// a checkbox when it is ticked, a text when it is not empty; any other value never.
pub open spec fn labelled_valid(v: FormValueSpec) -> bool {
    match v {
        FormValueSpec::TextList(l) => l.len() == 0,
        FormValueSpec::Bool(b) => b,
        FormValueSpec::Text(s) => s.len() > 0,
        FormValueSpec::File(_) => false,
    }
}

/// The kinds of form object.
#[derive(PartialEq, Eq, Structural, Clone, Copy, Debug)]
pub enum FormKind {
    /// A labelled widget whose value is one of its properties.
    LabelledBox,
    /// A checkbox.
    Checkbox,
    /// A labelled file chooser.
    Filebrowse,
}

/// The model of a form object.
pub struct FormObjectSpec {
    pub kind: FormKind,
    pub required: bool,
    pub label: Seq<char>,
    pub value: FormValueSpec,
    pub error_shown: bool,
}

/// Whether a form object counts as filled in.
pub open spec fn object_valid(o: FormObjectSpec) -> bool {
    match o.kind {
        FormKind::Checkbox => o.value matches FormValueSpec::Bool(b) && b,
        _ => labelled_valid(o.value),
    }
}

/// A widget of a form, with the label its value is submitted under.
pub struct FormObject {
    pub kind: FormKind,
    pub required: bool,
    pub label: String,
    pub value: FormValue,
    /// Whether the widget is highlighted as erroneous.
    pub error_shown: bool,
}

impl View for FormObject {
    type V = FormObjectSpec;

    open spec fn view(&self) -> FormObjectSpec {
        FormObjectSpec {
            kind: self.kind,
            required: self.required,
            label: self.label@,
            value: self.value@,
            error_shown: self.error_shown,
        }
    }
}

/// The error a form object can show.
#[derive(PartialEq, Eq, Structural, Clone, Copy, Debug)]
pub enum FormError {
    /// Generic invalid statement: highlight the form object.
    INVALID,
}

impl FormObject {
    pub fn new(kind: FormKind, required: bool, label: String, value: FormValue) -> (r: FormObject)
        ensures
            r@ == (FormObjectSpec { kind, required, label: label@, value: value@, error_shown: false }),
    {
        FormObject { kind, required, label, value, error_shown: false }
    }

    /// A copy of the object.
    pub fn copy(&self) -> (r: FormObject)
        ensures
            r@ == self@,
    {
        FormObject {
            kind: self.kind,
            required: self.required,
            label: self.label.clone(),
            value: self.value.copy(),
            error_shown: self.error_shown,
        }
    }

    /// Whether the object counts as filled in (only asked of required objects).
    pub fn is_valid(&self) -> (r: bool)
        ensures
            r == object_valid(self@),
    {
        match self.kind {
            FormKind::Checkbox => match &self.value {
                FormValue::Bool(b) => *b,
                _ => false,
            },
            _ => match &self.value {
                FormValue::TextList(l) => l.len() == 0,
                FormValue::Bool(b) => *b,
                FormValue::Text(s) => s.as_str().unicode_len() > 0,
                FormValue::File(_) => false,
            },
        }
    }

    /// Highlights the object, or clears the highlight.
    pub fn display_error(&mut self, error: Option<FormError>)
        ensures
            final(self)@ == (FormObjectSpec { error_shown: error is Some, ..old(self)@ }),
    {
        self.error_shown = match error {
            Some(FormError::INVALID) => true,
            None => false,
        };
    }

    /// Sets the object's value.
    pub fn set_value(&mut self, value: FormValue)
        ensures
            final(self)@ == (FormObjectSpec { value: value@, ..old(self)@ }),
    {
        self.value = value;
    }
}

/// The values a form submits: each label with the value of the last object under it.
pub open spec fn submitted(objs: Seq<FormObjectSpec>) -> Map<Seq<char>, FormValueSpec>
    decreases objs.len(),
{
    if objs.len() == 0 {
        Map::empty()
    } else {
        submitted(objs.drop_last()).insert(objs.last().label, objs.last().value)
    }
}

/// The form objects once checked: each required object is highlighted exactly when it is not
/// filled in; the others stay as they are.
pub open spec fn highlighted(objs: Seq<FormObjectSpec>) -> Seq<FormObjectSpec> {
    Seq::new(objs.len(), |i: int| if objs[i].required {
        FormObjectSpec { error_shown: !object_valid(objs[i]), ..objs[i] }
    } else {
        objs[i]
    })
}

/// Some required object of the form is not filled in.
pub open spec fn some_required_invalid(objs: Seq<FormObjectSpec>) -> bool {
    exists|i: int| 0 <= i < objs.len() && #[trigger] objs[i].required && !object_valid(objs[i])
}

/// A label with a value.
pub struct FormEntry {
    pub label: String,
    pub value: FormValue,
}

/// The map that a list of entries with distinct labels stands for.
pub open spec fn entries_map(v: Seq<FormEntry>) -> Map<Seq<char>, FormValueSpec>
    decreases v.len(),
{
    if v.len() == 0 {
        Map::empty()
    } else {
        entries_map(v.drop_last()).insert(v.last().label@, v.last().value@)
    }
}

/// No two entries share a label.
pub open spec fn distinct_labels(v: Seq<FormEntry>) -> bool {
    forall|i: int, j: int| 0 <= i < j < v.len() ==> v[i].label@ != v[j].label@
}

/// The value under `label` among `values`: that of the first entry with the label.
pub open spec fn lookup(values: Seq<FormEntry>, label: Seq<char>) -> Option<FormValueSpec>
    decreases values.len(),
{
    if values.len() == 0 {
        None
    } else if values[0].label@ == label {
        Some(values[0].value@)
    } else {
        lookup(values.drop_first(), label)
    }
}

/// The form objects of a form, in order.
pub open spec fn objects_view(v: Seq<FormObject>) -> Seq<FormObjectSpec> {
    v.map_values(|o: FormObject| o@)
}

/// The form objects of a content window: it checks them and collects their values.
pub struct FormManager {
    pub form_objects: Vec<FormObject>,
}

impl View for FormManager {
    type V = Seq<FormObjectSpec>;

    open spec fn view(&self) -> Seq<FormObjectSpec> {
        objects_view(self.form_objects@)
    }
}

proof fn lemma_entries_map_update(v: Seq<FormEntry>, k: int, e: FormEntry)
    requires
        distinct_labels(v),
        0 <= k < v.len(),
        v[k].label@ == e.label@,
    ensures
        distinct_labels(v.update(k, e)),
        entries_map(v.update(k, e)) == entries_map(v).insert(e.label@, e.value@),
    decreases v.len(),
{
    let w = v.update(k, e);
    if k == v.len() - 1 {
        assert(w.drop_last() =~= v.drop_last());
        assert forall|i: int| 0 <= i < v.len() - 1 implies v[i].label@ != e.label@ by {
            assert(v[i].label@ != v[k].label@);
        }
        lemma_entries_map_absent(v.drop_last(), e.label@);
        assert(entries_map(w) =~= entries_map(v).insert(e.label@, e.value@));
    } else {
        assert(w.drop_last() =~= v.drop_last().update(k, e));
        lemma_entries_map_update(v.drop_last(), k, e);
        assert(v.last().label@ != e.label@);
        assert(entries_map(w) =~= entries_map(v).insert(e.label@, e.value@));
    }
}

proof fn lemma_entries_map_absent(v: Seq<FormEntry>, l: Seq<char>)
    requires
        forall|i: int| 0 <= i < v.len() ==> v[i].label@ != l,
    ensures
        !entries_map(v).contains_key(l),
    decreases v.len(),
{
    if v.len() > 0 {
        lemma_entries_map_absent(v.drop_last(), l);
    }
}

impl FormManager {
    pub fn new() -> (r: FormManager)
        ensures
            r@ == Seq::<FormObjectSpec>::empty(),
    {
        let r = FormManager { form_objects: Vec::new() };
        proof {
            assert(r@ =~= Seq::<FormObjectSpec>::empty());
        }
        r
    }

    pub fn add_form_object(&mut self, form_object: FormObject)
        ensures
            final(self)@ == old(self)@.push(form_object@),
    {
        self.form_objects.push(form_object);
        proof {
            assert(self@ =~= old(self)@.push(form_object@));
        }
    }

    /// "Submit" the form: `None` when a required object is not filled in; otherwise each
    /// label mapped to the value of the last object under it.
    pub fn submit(&self) -> (r: Option<Vec<FormEntry>>)
        ensures
            r is None <==> some_required_invalid(self@),
            r matches Some(v) ==> distinct_labels(v@) && entries_map(v@) == submitted(self@),
    {
        let mut map: Vec<FormEntry> = Vec::new();
        let mut i: usize = 0;
        while i < self.form_objects.len()
            invariant
                i <= self@.len(),
                self@.len() == self.form_objects@.len(),
                distinct_labels(map@),
                entries_map(map@) == submitted(self@.take(i as int)),
                !some_required_invalid(self@.take(i as int)),
            decreases self@.len() - i,
        {
            let obj = &self.form_objects[i];
            proof {
                assert(self@.take(i + 1).drop_last() =~= self@.take(i as int));
                assert(self@[i as int] == obj@);
            }
            if obj.required {
                if !obj.is_valid() {
                    proof {
                        assert(self@[i as int].required && !object_valid(self@[i as int]));
                    }
                    return None;
                }
            }
            let entry = FormEntry { label: obj.label.clone(), value: obj.value.copy() };
            let mut k: usize = 0;
            let mut found = false;
            while k < map.len()
                invariant_except_break
                    k <= map@.len(),
                    forall|j: int| 0 <= j < k ==> map@[j].label@ != entry.label@,
                    !found,
                ensures
                    found ==> k < map@.len() && map@[k as int].label@ == entry.label@,
                    !found ==> forall|j: int| 0 <= j < map@.len() ==> map@[j].label@ != entry.label@,
                decreases map@.len() - k,
            {
                if map[k].label.eq(&entry.label) {
                    found = true;
                    break;
                }
                k = k + 1;
            }
            if found {
                proof {
                    lemma_entries_map_update(map@, k as int, entry);
                }
                map.set(k, entry);
            } else {
                proof {
                    assert(map@.push(entry).drop_last() =~= map@);
                    assert(distinct_labels(map@.push(entry)));
                }
                map.push(entry);
            }
            proof {
                assert(!some_required_invalid(self@.take(i + 1))) by {
                    assert forall|j: int| 0 <= j < i + 1 implies !(#[trigger] self@.take(i + 1)[j].required && !object_valid(self@.take(i + 1)[j])) by {
                        if j < i {
                            assert(self@.take(i + 1)[j] == self@.take(i as int)[j]);
                        }
                    }
                }
            }
            i = i + 1;
        }
        proof {
            assert(self@.take(i as int) =~= self@);
        }
        Some(map)
    }

    /// Sets the value of each object whose label is among `values`.
    pub fn update_values(&mut self, values: &Vec<FormEntry>)
        ensures
            final(self)@.len() == old(self)@.len(),
            forall|i: int| 0 <= i < old(self)@.len() ==> #[trigger] final(self)@[i] == (match lookup(values@, old(self)@[i].label) {
                Some(v) => FormObjectSpec { value: v, ..old(self)@[i] },
                None => old(self)@[i],
            }),
    {
        let ghost old_objs = self@;
        let mut out: Vec<FormObject> = Vec::new();
        let mut i: usize = 0;
        while i < self.form_objects.len()
            invariant
                i <= old_objs.len(),
                self@ == old_objs,
                old_objs.len() == self.form_objects@.len(),
                out@.len() == i,
                forall|j: int| 0 <= j < i ==> #[trigger] out@[j]@ == (match lookup(values@, old_objs[j].label) {
                    Some(v) => FormObjectSpec { value: v, ..old_objs[j] },
                    None => old_objs[j],
                }),
            decreases old_objs.len() - i,
        {
            let mut obj = self.form_objects[i].copy();
            proof {
                assert(obj@ == old_objs[i as int]);
            }
            let found = find_entry(values, &obj.label);
            match found {
                Some(k) => {
                    let v = values[k].value.copy();
                    obj.set_value(v);
                },
                None => {},
            }
            out.push(obj);
            i = i + 1;
        }
        self.form_objects = out;
    }

    /// Checks every required object, highlighting those that are not filled in and clearing
    /// the highlight of those that are. Whether all required objects are filled in.
    pub fn is_valid(&mut self) -> (r: bool)
        ensures
            r == !some_required_invalid(old(self)@),
            final(self)@ == highlighted(old(self)@),
            final(self)@.len() == old(self)@.len(),
            forall|i: int| 0 <= i < old(self)@.len() ==> #[trigger] final(self)@[i] == (if old(self)@[i].required {
                FormObjectSpec { error_shown: !object_valid(old(self)@[i]), ..old(self)@[i] }
            } else {
                old(self)@[i]
            }),
    {
        let ghost old_objs = self@;
        let mut out: Vec<FormObject> = Vec::new();
        let mut is_valid = true;
        let mut i: usize = 0;
        while i < self.form_objects.len()
            invariant
                i <= old_objs.len(),
                self@ == old_objs,
                old_objs.len() == self.form_objects@.len(),
                out@.len() == i,
                forall|j: int| 0 <= j < i ==> #[trigger] out@[j]@ == (if old_objs[j].required {
                    FormObjectSpec { error_shown: !object_valid(old_objs[j]), ..old_objs[j] }
                } else {
                    old_objs[j]
                }),
                is_valid == !some_required_invalid(old_objs.take(i as int)),
            decreases old_objs.len() - i,
        {
            let mut obj = self.form_objects[i].copy();
            proof {
                assert(obj@ == old_objs[i as int]);
            }
            if obj.required {
                if !obj.is_valid() {
                    is_valid = false;
                    obj.display_error(Some(FormError::INVALID));
                } else {
                    obj.display_error(None);
                }
            }
            proof {
                let t = old_objs.take(i + 1);
                if is_valid {
                    assert forall|j: int| 0 <= j < t.len() implies !(#[trigger] t[j].required && !object_valid(t[j])) by {
                        if j < i {
                            assert(t[j] == old_objs.take(i as int)[j]);
                        }
                    }
                } else {
                    if old_objs[i as int].required && !object_valid(old_objs[i as int]) {
                        assert(t[i as int] == old_objs[i as int]);
                    } else {
                        let w = choose|j: int| 0 <= j < i && #[trigger] old_objs.take(i as int)[j].required && !object_valid(old_objs.take(i as int)[j]);
                        assert(t[w] == old_objs.take(i as int)[w]);
                    }
                }
            }
            out.push(obj);
            i = i + 1;
        }
        proof {
            assert(old_objs.take(i as int) =~= old_objs);
        }
        self.form_objects = out;
        proof {
            assert(self@ =~= highlighted(old_objs));
        }
        is_valid
    }
}

/// The index of the first entry labelled `label`.
pub fn find_entry(values: &Vec<FormEntry>, label: &String) -> (r: Option<usize>)
    ensures
        match r {
            Some(k) => k < values@.len() && lookup(values@, label@) == Some(values@[k as int].value@),
            None => lookup(values@, label@) is None,
        },
{
    let mut k: usize = 0;
    proof {
        assert(values@.skip(0) =~= values@);
    }
    while k < values.len()
        invariant
            k <= values@.len(),
            lookup(values@, label@) == lookup(values@.skip(k as int), label@),
        decreases values@.len() - k,
    {
        proof {
            assert(values@.skip(k as int).drop_first() =~= values@.skip(k + 1));
        }
        if values[k].label.eq(label) {
            return Some(k);
        }
        k = k + 1;
    }
    None
}

} // verus!
