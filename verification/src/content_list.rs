//! The list of content windows, compiled into Rust source.
//!
//! The content list names the XML definition of each content window; each definition names
//! the window, the game folder its content goes to, and for each kind of content the
//! arguments of its chunks. From these, Rust source is written that opens the window of a
//! definition, gives the arguments of a kind of content, and gives the folder of a window.
//! Reading the files and writing the source out is left to the caller.
use vstd::prelude::*;
use vstd::string::*;
use crate::forms::strings_view;
use crate::text::push_char;

verus! {

broadcast use vstd::string::axiom_spec_iter;

/// Whether `regex` accepts `pattern` (`Regex::new`).
pub uninterp spec fn regex_accepts(pattern: Seq<char>) -> bool;

/// For each match of `pattern` in `haystack`, in order, the text of the group named `group`
/// where it took part (`Regex::captures_iter`, then `Captures::name`).
pub uninterp spec fn regex_captures_named(pattern: Seq<char>, haystack: Seq<char>, group: Seq<char>) -> Seq<Option<Seq<char>>>;

/// The first match of `pattern` in `haystack`, if any, with the text of the group named
/// `group` where it took part (`Regex::captures`, then `Captures::name`).
pub uninterp spec fn regex_first_capture(pattern: Seq<char>, haystack: Seq<char>, group: Seq<char>) -> Option<Option<Seq<char>>>;

pub open spec fn opt_view(o: Option<String>) -> Option<Seq<char>> {
    match o {
        Some(s) => Some(s@),
        None => None,
    }
}

pub open spec fn opt_strings_view(v: Seq<Option<String>>) -> Seq<Option<Seq<char>>> {
    v.map_values(|o: Option<String>| opt_view(o))
}

/// `Regex::new(pattern)`, then `captures_iter(haystack)`, each capture taken by its group
/// `group`. The contract claims that the pattern is refused exactly where `regex` refuses it
/// (the error's text is not stated), and that the groups come out as `regex` finds them.
#[verifier::external_body]
fn captures_named(pattern: &str, haystack: &str, group: &str) -> (r: Result<Vec<Option<String>>, String>)
    ensures
        r is Ok <==> regex_accepts(pattern@),
        r matches Ok(v) ==> opt_strings_view(v@) == regex_captures_named(pattern@, haystack@, group@),
{
    let re = regex::Regex::new(pattern).map_err(|e| e.to_string())?;
    Ok(re.captures_iter(haystack).map(|c| c.name(group).map(|m| m.as_str().to_string())).collect())
}

/// `Regex::new(pattern)`, then `captures(haystack)`, taken by its group `group`. The contract
/// claims that the pattern is refused exactly where `regex` refuses it (the error's text is
/// not stated), and that the first match comes out as `regex` finds it.
#[verifier::external_body]
fn first_capture(pattern: &str, haystack: &str, group: &str) -> (r: Result<Option<Option<String>>, String>)
    ensures
        r is Ok <==> regex_accepts(pattern@),
        r matches Ok(c) ==> (match c {
            Some(g) => regex_first_capture(pattern@, haystack@, group@) == Some(opt_view(g)),
            None => regex_first_capture(pattern@, haystack@, group@) is None,
        }),
{
    let re = regex::Regex::new(pattern).map_err(|e| e.to_string())?;
    Ok(re.captures(haystack).map(|c| c.name(group).map(|m| m.as_str().to_string())))
}

/// `s` split at each `sep` (as `str::split` splits it: an empty string is one empty part).
pub open spec fn split_on(s: Seq<char>, sep: char) -> Seq<Seq<char>>
    decreases s.len(),
{
    if s.len() == 0 {
        seq![Seq::empty()]
    } else {
        let prev = split_on(s.drop_last(), sep);
        if s.last() == sep {
            prev.push(Seq::empty())
        } else {
            prev.update(prev.len() - 1, prev.last().push(s.last()))
        }
    }
}

proof fn lemma_split_nonempty(s: Seq<char>, sep: char)
    ensures
        split_on(s, sep).len() >= 1,
    decreases s.len(),
{
    if s.len() > 0 {
        lemma_split_nonempty(s.drop_last(), sep);
    }
}

/// `s` with each `from` replaced by `to`.
pub open spec fn replace_char(s: Seq<char>, from: char, to: Seq<char>) -> Seq<char>
    decreases s.len(),
{
    if s.len() == 0 {
        Seq::empty()
    } else {
        replace_char(s.drop_last(), from, to) + (if s.last() == from { to } else { seq![s.last()] })
    }
}

/// The parts, one after another.
pub open spec fn concat_all(parts: Seq<Seq<char>>) -> Seq<char>
    decreases parts.len(),
{
    if parts.len() == 0 {
        Seq::empty()
    } else {
        concat_all(parts.drop_last()) + parts.last()
    }
}

/// The parts with `sep` between each two.
pub open spec fn join(parts: Seq<Seq<char>>, sep: Seq<char>) -> Seq<char>
    decreases parts.len(),
{
    if parts.len() == 0 {
        Seq::empty()
    } else if parts.len() == 1 {
        parts[0]
    } else {
        join(parts.drop_last(), sep) + sep + parts.last()
    }
}

/// Joining puts the separator between every two neighbouring parts: one part joins to
/// itself, and a part added after one or more parts comes after their join and one separator.
pub proof fn law_join_separates(parts: Seq<Seq<char>>, x: Seq<char>, sep: Seq<char>)
    ensures
        join(Seq::<Seq<char>>::empty(), sep) == Seq::<char>::empty(),
        join(seq![x], sep) == x,
        parts.len() > 0 ==> join(parts.push(x), sep) == join(parts, sep) + sep + x,
{
    assert(parts.push(x).drop_last() =~= parts);
}

/// Joining two runs of parts, each of at least one part, is joining each and putting one
/// separator between them.
pub proof fn law_join_concat(a: Seq<Seq<char>>, b: Seq<Seq<char>>, sep: Seq<char>)
    requires
        a.len() > 0,
        b.len() > 0,
    ensures
        join(a + b, sep) == join(a, sep) + sep + join(b, sep),
    decreases b.len(),
{
    if b.len() == 1 {
        assert((a + b).drop_last() =~= a);
        assert((a + b).last() == b[0]);
    } else {
        let b0 = b.drop_last();
        law_join_concat(a, b0, sep);
        assert((a + b).drop_last() =~= a + b0);
        assert((a + b).last() == b.last());
        assert(join(a + b, sep) == join(a + b0, sep) + sep + b.last());
        assert(join(b, sep) == join(b0, sep) + sep + b.last());
        assert(join(a, sep) + sep + join(b0, sep) + sep + b.last() =~= join(a, sep) + sep + (join(b0, sep) + sep + b.last()));
    }
}

/// A join of `n` parts is as long as the parts together, with `n - 1` separators.
pub proof fn law_join_len(parts: Seq<Seq<char>>, sep: Seq<char>)
    requires
        parts.len() > 0,
    ensures
        join(parts, sep).len() == parts_len(parts) + (parts.len() - 1) * sep.len(),
    decreases parts.len(),
{
    if parts.len() > 1 {
        law_join_len(parts.drop_last(), sep);
        assert(parts_len(parts) == parts_len(parts.drop_last()) + parts.last().len());
        let n: int = parts.len() as int;
        let l: int = sep.len() as int;
        assert((n - 1) * l == (n - 2) * l + l) by (nonlinear_arith);
    } else {
        assert(parts_len(parts.drop_last()) == 0);
        assert(parts.last() == parts[0]);
    }
}

/// The total length of some parts.
pub open spec fn parts_len(parts: Seq<Seq<char>>) -> int
    decreases parts.len(),
{
    if parts.len() == 0 {
        0
    } else {
        parts_len(parts.drop_last()) + parts.last().len()
    }
}

/// Splitting undoes joining: the parts of `s` split at `sep`, joined again with `sep`, give
/// `s` back, and no part holds `sep`.
pub proof fn law_split_round_trip(s: Seq<char>, sep: char)
    ensures
        join(split_on(s, sep), seq![sep]) == s,
        forall|i: int| 0 <= i < split_on(s, sep).len() ==> !(#[trigger] split_on(s, sep)[i]).contains(sep),
    decreases s.len(),
{
    if s.len() == 0 {
        assert(split_on(s, sep) == seq![Seq::<char>::empty()]);
        law_join_separates(Seq::empty(), Seq::<char>::empty(), seq![sep]);
        assert(s =~= Seq::<char>::empty());
    } else {
        let t = s.drop_last();
        let c = s.last();
        law_split_round_trip(t, sep);
        lemma_split_nonempty(t, sep);
        let prev = split_on(t, sep);
        let new = split_on(s, sep);
        if c == sep {
            assert(new == prev.push(Seq::<char>::empty()));
            law_join_separates(prev, Seq::<char>::empty(), seq![sep]);
            assert(t + seq![sep] + Seq::<char>::empty() =~= s);
            assert forall|i: int| 0 <= i < new.len() implies !(#[trigger] new[i]).contains(sep) by {
                if i < prev.len() {
                    assert(new[i] == prev[i]);
                }
            }
        } else {
            let l = prev.last().push(c);
            assert(new == prev.update(prev.len() - 1, l));
            if prev.len() == 1 {
                assert(new =~= seq![l]);
                law_join_separates(Seq::empty(), l, seq![sep]);
                assert(join(prev, seq![sep]) == prev[0]);
                assert(l =~= s);
            } else {
                let front = prev.drop_last();
                assert(new =~= front.push(l));
                assert(prev =~= front.push(prev.last()));
                law_join_separates(front, l, seq![sep]);
                law_join_separates(front, prev.last(), seq![sep]);
                assert(join(front, seq![sep]) + seq![sep] + l =~= (join(front, seq![sep]) + seq![sep] + prev.last()).push(c));
                assert(t.push(c) =~= s);
            }
            assert forall|i: int| 0 <= i < new.len() implies !(#[trigger] new[i]).contains(sep) by {
                if i < prev.len() - 1 {
                    assert(new[i] == prev[i]);
                } else {
                    assert(new[i] == l);
                    if l.contains(sep) {
                        let k = choose|k: int| 0 <= k < l.len() && l[k] == sep;
                        if k < prev.last().len() {
                            assert(prev.last()[k] == sep);
                            assert(prev[prev.len() - 1].contains(sep));
                        }
                    }
                }
            }
        }
    }
}

/// Replacing a character works one character at a time: each `from` becomes `to`, every
/// other character stays, and replacing in two texts run together is replacing in each.
pub proof fn law_replace_char_each(a: Seq<char>, b: Seq<char>, c: char, from: char, to: Seq<char>)
    ensures
        replace_char(seq![c], from, to) == (if c == from { to } else { seq![c] }),
        replace_char(a + b, from, to) == replace_char(a, from, to) + replace_char(b, from, to),
    decreases b.len(),
{
    assert(seq![c].drop_last() =~= Seq::<char>::empty());
    assert(seq![c].last() == c);
    assert(replace_char(Seq::<char>::empty(), from, to) == Seq::<char>::empty());
    assert(replace_char(seq![c], from, to) == replace_char(seq![c].drop_last(), from, to) + (if c == from { to } else { seq![c] }));
    assert(Seq::<char>::empty() + (if c == from { to } else { seq![c] }) =~= (if c == from { to } else { seq![c] }));
    if b.len() == 0 {
        assert(a + b =~= a);
        assert(replace_char(a, from, to) + Seq::<char>::empty() =~= replace_char(a, from, to));
    } else {
        law_replace_char_each(a, b.drop_last(), c, from, to);
        assert((a + b).drop_last() =~= a + b.drop_last());
        assert((a + b).last() == b.last());
    }
}

/// Concatenating runs of parts one after another is concatenating each run.
pub proof fn law_concat_all_append(a: Seq<Seq<char>>, b: Seq<Seq<char>>, x: Seq<char>)
    ensures
        concat_all(seq![x]) == x,
        concat_all(a + b) == concat_all(a) + concat_all(b),
    decreases b.len(),
{
    assert(seq![x].drop_last() =~= Seq::<Seq<char>>::empty());
    assert(seq![x].last() == x);
    assert(concat_all(Seq::<Seq<char>>::empty()) == Seq::<char>::empty());
    assert(concat_all(seq![x]) == concat_all(seq![x].drop_last()) + x);
    assert(Seq::<char>::empty() + x =~= x);
    if b.len() == 0 {
        assert(a + b =~= a);
        assert(concat_all(a) + Seq::<char>::empty() =~= concat_all(a));
    } else {
        law_concat_all_append(a, b.drop_last(), x);
        assert((a + b).drop_last() =~= a + b.drop_last());
        assert((a + b).last() == b.last());
    }
}

/// A text in double quotes.
pub open spec fn in_quotes(a: Seq<char>) -> Seq<char> {
    seq!['"'] + a + seq!['"']
}

proof fn lemma_quoted_join(args: Seq<Seq<char>>)
    requires
        args.len() > 0,
    ensures
        join(args.map_values(|a: Seq<char>| in_quotes(a)), seq![',']) == seq!['"'] + join(args, seq!['"', ',', '"']) + seq!['"'],
    decreases args.len(),
{
    let q = args.map_values(|a: Seq<char>| in_quotes(a));
    if args.len() == 1 {
        assert(q =~= seq![in_quotes(args[0])]);
        law_join_separates(Seq::empty(), in_quotes(args[0]), seq![',']);
        law_join_separates(Seq::empty(), args[0], seq!['"', ',', '"']);
        assert(args =~= seq![args[0]]);
    } else {
        let front = args.drop_last();
        lemma_quoted_join(front);
        let qf = front.map_values(|a: Seq<char>| in_quotes(a));
        assert(q =~= qf.push(in_quotes(args.last())));
        assert(args =~= front.push(args.last()));
        law_join_separates(qf, in_quotes(args.last()), seq![',']);
        law_join_separates(front, args.last(), seq!['"', ',', '"']);
        assert(seq!['"'] + join(front, seq!['"', ',', '"']) + seq!['"'] + seq![','] + in_quotes(args.last())
            =~= seq!['"'] + (join(front, seq!['"', ',', '"']) + seq!['"', ',', '"'] + args.last()) + seq!['"']);
    }
}

/// One chunk's arguments come out as a vector of its arguments, each in double quotes,
/// separated by commas.
pub proof fn law_args_source_quotes_each(args: Seq<Seq<char>>)
    requires
        args.len() > 0,
    ensures
        args_source(args) == seq!['v', 'e', 'c', '!', '['] + join(args.map_values(|a: Seq<char>| in_quotes(a)), seq![','])
            + seq![']'],
{
    reveal_strlit("vec![\"");
    reveal_strlit("\",\"");
    reveal_strlit("\"]");
    lemma_quoted_join(args);
    assert("vec![\""@ =~= seq!['v', 'e', 'c', '!', '['] + seq!['"']);
    assert("\",\""@ =~= seq!['"', ',', '"']);
    assert("\"]"@ =~= seq!['"'] + seq![']']);
    assert(args_source(args) =~= seq!['v', 'e', 'c', '!', '['] + (seq!['"'] + join(args, seq!['"', ',', '"']) + seq!['"'])
        + seq![']']);
}

/// `s` split at each `sep` (see [`split_on`]).
pub fn split_string(s: &str, sep: char) -> (r: Vec<String>)
    ensures
        strings_view(r@) == split_on(s@, sep),
{
    let mut parts: Vec<String> = Vec::new();
    let mut cur = String::new();
    for c in it: s.chars()
        invariant
            it.seq() == s@,
            strings_view(parts@).push(cur@) == split_on(it.seq().take(it.index() as int), sep),
    {
        let ghost t = it.seq().take(it.index() + 1);
        proof {
            assert(t.drop_last() =~= it.seq().take(it.index() as int));
            assert(t.last() == c);
            lemma_split_nonempty(t.drop_last(), sep);
        }
        if c == sep {
            let done = cur;
            parts.push(done);
            cur = String::new();
            proof {
                assert(strings_view(parts@).push(cur@) =~= split_on(t.drop_last(), sep).push(Seq::empty()));
            }
        } else {
            let ghost prev = split_on(t.drop_last(), sep);
            push_char(&mut cur, c);
            proof {
                assert(strings_view(parts@).push(cur@) =~= prev.update(prev.len() - 1, prev.last().push(c)));
            }
        }
    }
    parts.push(cur);
    proof {
        assert(s@.take(s@.len() as int) =~= s@);
    }
    parts
}

/// `s` with each `from` replaced by `to`.
pub fn replace_string(s: &str, from: char, to: &str) -> (r: String)
    ensures
        r@ == replace_char(s@, from, to@),
{
    let mut r = String::new();
    for c in it: s.chars()
        invariant
            it.seq() == s@,
            r@ == replace_char(it.seq().take(it.index() as int), from, to@),
    {
        let ghost t = it.seq().take(it.index() + 1);
        proof {
            assert(t.drop_last() =~= it.seq().take(it.index() as int));
            assert(t.last() == c);
        }
        if c == from {
            r.append(to);
        } else {
            push_char(&mut r, c);
            proof {
                assert(r@ =~= replace_char(t.drop_last(), from, to@) + seq![c]);
            }
        }
    }
    proof {
        assert(s@.take(s@.len() as int) =~= s@);
    }
    r
}

/// Appends the parts, with `sep` between each two.
fn append_join(out: &mut String, parts: &Vec<String>, sep: &str)
    ensures
        final(out)@ == old(out)@ + join(strings_view(parts@), sep@),
{
    let ghost start = out@;
    let mut i: usize = 0;
    while i < parts.len()
        invariant
            i <= parts@.len(),
            out@ == start + join(strings_view(parts@).take(i as int), sep@),
        decreases parts@.len() - i,
    {
        let ghost before = strings_view(parts@).take(i as int);
        let ghost after = strings_view(parts@).take(i + 1);
        proof {
            assert(after.drop_last() =~= before);
            assert(after.last() == parts@[i as int]@);
        }
        if i > 0 {
            out.append(sep);
        }
        out.append(parts[i].as_str());
        proof {
            if i == 0 {
                assert(before =~= Seq::<Seq<char>>::empty());
                assert(out@ =~= start + after[0]);
            } else {
                assert(out@ =~= start + (join(before, sep@) + sep@ + after.last()));
            }
        }
        i = i + 1;
    }
    proof {
        assert(strings_view(parts@).take(i as int) =~= strings_view(parts@));
    }
}

/// The arguments of one chunk of a kind of content.
pub struct SubcontentInfo {
    pub args: Vec<String>,
}

/// A kind of content of a window, with the arguments of each of its chunks.
pub struct ContentInfo {
    pub content_type: String,
    pub subcontent_info: Vec<SubcontentInfo>,
}

/// A content window, as its XML definition describes it.
pub struct ContentWindowItem {
    /// The definition's path, relative to the content folder.
    pub xml_def_path: String,
    /// The window's path among the modules of the content folder.
    pub mod_location: String,
    pub window_name: String,
    /// The party pack and the game folder that the window's content goes to.
    pub party_pack: String,
    pub game_folder: String,
    pub content_info: Vec<ContentInfo>,
}

/// A kind of content as the XML definition lists it: its type, and for each chunk the
/// chunk's arguments, comma separated.
pub struct ContentItemDef {
    pub content_type: String,
    pub subcontent_values: Vec<String>,
}

/// The XML definition of a content window.
pub struct ContentWindowDef {
    pub name: String,
    pub game_folder: String,
    pub content_list: Vec<ContentItemDef>,
}

/// The model of a kind of content: its type and the arguments of each chunk.
pub struct InfoSpec {
    pub content_type: Seq<char>,
    pub subcontent: Seq<Seq<Seq<char>>>,
}

/// The model of a content window.
pub struct ItemSpec {
    pub xml_def_path: Seq<char>,
    pub mod_location: Seq<char>,
    pub window_name: Seq<char>,
    pub party_pack: Seq<char>,
    pub game_folder: Seq<char>,
    pub content_info: Seq<InfoSpec>,
}

pub open spec fn sub_view(s: SubcontentInfo) -> Seq<Seq<char>> {
    strings_view(s.args@)
}

pub open spec fn info_view(i: ContentInfo) -> InfoSpec {
    InfoSpec {
        content_type: i.content_type@,
        subcontent: i.subcontent_info@.map_values(|s: SubcontentInfo| sub_view(s)),
    }
}

pub open spec fn infos_view(v: Seq<ContentInfo>) -> Seq<InfoSpec> {
    v.map_values(|i: ContentInfo| info_view(i))
}

impl View for ContentWindowItem {
    type V = ItemSpec;

    open spec fn view(&self) -> ItemSpec {
        ItemSpec {
            xml_def_path: self.xml_def_path@,
            mod_location: self.mod_location@,
            window_name: self.window_name@,
            party_pack: self.party_pack@,
            game_folder: self.game_folder@,
            content_info: infos_view(self.content_info@),
        }
    }
}

pub open spec fn items_view(v: Seq<ContentWindowItem>) -> Seq<ItemSpec> {
    v.map_values(|c: ContentWindowItem| c@)
}

/// How the content list names the XML definition of a window.
pub const CONTENT_TAG: &'static str = "<property name=\"xml-definition\">\\W*(?<def>[\\w\\/.]+)\\W*<\\/property>";

/// How the path of a definition gives the folder of its window.
pub const MOD_PATH: &'static str = "(?<path>[\\w\\/]+)\\/\\w+\\.xml";

/// The groups, where each took part.
pub open spec fn all_present(v: Seq<Option<Seq<char>>>) -> Option<Seq<Seq<char>>>
    decreases v.len(),
{
    if v.len() == 0 {
        Some(Seq::empty())
    } else {
        match (all_present(v.drop_last()), v.last()) {
            (Some(p), Some(x)) => Some(p.push(x)),
            _ => None,
        }
    }
}

/// The XML definitions that a content list names, in order.
pub open spec fn xml_definitions_spec(content_list: Seq<char>) -> Option<Seq<Seq<char>>> {
    if regex_accepts(CONTENT_TAG@) {
        all_present(regex_captures_named(CONTENT_TAG@, content_list, "def"@))
    } else {
        None
    }
}

/// The XML definitions that a content list names, in order (an error where the pattern
/// finds a definition without its path, which its form rules out).
pub fn xml_definitions(content_list: &str) -> (r: Result<Vec<String>, String>)
    ensures
        match xml_definitions_spec(content_list@) {
            Some(defs) => r matches Ok(v) && strings_view(v@) == defs,
            None => r is Err,
        },
{
    let caps = captures_named(CONTENT_TAG, content_list, "def")?;
    let mut defs: Vec<String> = Vec::new();
    let mut i: usize = 0;
    while i < caps.len()
        invariant
            i <= caps@.len(),
            opt_strings_view(caps@) == regex_captures_named(CONTENT_TAG@, content_list@, "def"@),
            all_present(opt_strings_view(caps@).take(i as int)) == Some(strings_view(defs@)),
        decreases caps@.len() - i,
    {
        let ghost t = opt_strings_view(caps@).take(i + 1);
        proof {
            assert(t.drop_last() =~= opt_strings_view(caps@).take(i as int));
        }
        match &caps[i] {
            Some(d) => {
                defs.push(d.clone());
                proof {
                    assert(strings_view(defs@) =~= strings_view(defs@).drop_last().push(d@));
                }
            },
            None => {
                proof {
                    lemma_absent_stays(opt_strings_view(caps@), i as int);
                }
                return Err(String::from_str("A definition of the content list has no path."));
            },
        }
        i = i + 1;
    }
    proof {
        assert(opt_strings_view(caps@).take(i as int) =~= opt_strings_view(caps@));
    }
    Ok(defs)
}

/// A group that did not take part spoils every longer run of groups.
proof fn lemma_absent_stays(v: Seq<Option<Seq<char>>>, i: int)
    requires
        0 <= i < v.len(),
        v[i] is None,
    ensures
        all_present(v) is None,
    decreases v.len(),
{
    if i < v.len() - 1 {
        assert(v.drop_last()[i] is None);
        lemma_absent_stays(v.drop_last(), i);
    }
}

/// A kind of content as its definition gives it: each chunk's arguments split at commas.
pub open spec fn info_of_def(d: ContentItemDef) -> InfoSpec {
    InfoSpec {
        content_type: d.content_type@,
        subcontent: strings_view(d.subcontent_values@).map_values(|v: Seq<char>| split_on(v, ',')),
    }
}

/// The window that the definition at `loc`, whose folder path is `path`, describes.
pub open spec fn item_of_def(loc: Seq<char>, path: Seq<char>, def: ContentWindowDef) -> ItemSpec {
    ItemSpec {
        xml_def_path: loc,
        mod_location: replace_char(path, '/', "::"@) + "::"@ + def.name@,
        window_name: def.name@,
        party_pack: Seq::empty(),
        game_folder: def.game_folder@,
        content_info: def.content_list@.map_values(|d: ContentItemDef| info_of_def(d)),
    }
}

fn info_from_def(d: &ContentItemDef) -> (r: ContentInfo)
    ensures
        info_view(r) == info_of_def(*d),
{
    let mut subs: Vec<SubcontentInfo> = Vec::new();
    let mut i: usize = 0;
    while i < d.subcontent_values.len()
        invariant
            i <= d.subcontent_values@.len(),
            subs@.map_values(|s: SubcontentInfo| sub_view(s))
                == strings_view(d.subcontent_values@).take(i as int).map_values(|v: Seq<char>| split_on(v, ',')),
        decreases d.subcontent_values@.len() - i,
    {
        let args = split_string(d.subcontent_values[i].as_str(), ',');
        let ghost old_subs = subs@;
        subs.push(SubcontentInfo { args });
        proof {
            let f = |v: Seq<char>| split_on(v, ',');
            let g = |s: SubcontentInfo| sub_view(s);
            assert(strings_view(d.subcontent_values@).take(i + 1).map_values(f)
                =~= strings_view(d.subcontent_values@).take(i as int).map_values(f).push(split_on(d.subcontent_values@[i as int]@, ',')));
            assert(subs@.map_values(g) =~= old_subs.map_values(g).push(sub_view(subs@[i as int])));
        }
        i = i + 1;
    }
    proof {
        assert(strings_view(d.subcontent_values@).take(i as int) =~= strings_view(d.subcontent_values@));
    }
    ContentInfo { content_type: d.content_type.clone(), subcontent_info: subs }
}

impl ContentWindowItem {
    /// The window that the definition at `loc` describes (an error where `loc` is not the
    /// path of an XML file under a folder).
    pub fn read(loc: String, window: ContentWindowDef) -> (r: Result<Self, String>)
        ensures
            (match regex_first_capture(MOD_PATH@, loc@, "path"@) {
                Some(Some(path)) => regex_accepts(MOD_PATH@) ==> (r matches Ok(c) && c@ == item_of_def(loc@, path, window)),
                _ => r is Err,
            }),
            !regex_accepts(MOD_PATH@) ==> r is Err,
    {
        let cap = first_capture(MOD_PATH, loc.as_str(), "path")?;
        let path = match cap {
            Some(Some(p)) => p,
            _ => {
                return Err(String::from_str("The definition is not an XML file under a folder."));
            },
        };
        let mut mod_location = replace_string(path.as_str(), '/', "::");
        mod_location.append("::");
        mod_location.append(window.name.as_str());
        let mut infos: Vec<ContentInfo> = Vec::new();
        let mut i: usize = 0;
        while i < window.content_list.len()
            invariant
                i <= window.content_list@.len(),
                infos_view(infos@) == window.content_list@.take(i as int).map_values(|d: ContentItemDef| info_of_def(d)),
            decreases window.content_list@.len() - i,
        {
            let info = info_from_def(&window.content_list[i]);
            let ghost old_infos = infos@;
            infos.push(info);
            proof {
                let f = |d: ContentItemDef| info_of_def(d);
                assert(window.content_list@.take(i + 1).map_values(f)
                    =~= window.content_list@.take(i as int).map_values(f).push(info_of_def(window.content_list@[i as int])));
                assert(infos_view(infos@) =~= infos_view(old_infos).push(info_view(infos@[i as int])));
            }
            i = i + 1;
        }
        proof {
            assert(window.content_list@.take(i as int) =~= window.content_list@);
        }
        Ok(ContentWindowItem {
            xml_def_path: loc,
            mod_location,
            window_name: window.name,
            party_pack: String::new(),
            game_folder: window.game_folder,
            content_info: infos,
        })
    }
}

// The fixed parts of the compiled source.
pub const CREATE_WINDOW_HEAD: &'static str = "pub fn create_window(xml_def_path : &str) -> ContentWindow {\n\tmatch xml_def_path {\n";
pub const CREATE_WINDOW_TAIL: &'static str = "\t\t_=>panic!(\"XML definition of path {xml_def_path} not found.\")\n\t}\n}\n";
pub const ARGS_HEAD: &'static str = "pub fn get_subcontent_args(xml_def_path : &str, content_type : &str) -> Vec<Vec<&'static str>> {\n\tmatch xml_def_path {\n";
pub const ARGS_WINDOW_TAIL: &'static str = "\t\t\t_=>panic!(\"content_type {content_type} not found.\"),\n\t\t},\n";
pub const ARGS_TAIL: &'static str = "\t\t_=>panic!(\"XML definition of path {xml_def_path} not found.\"),\n\t}\n}\n";
pub const FOLDER_HEAD: &'static str = "\npub fn get_relative_folder(xml_def_path : &str) -> &'static std::path::Path {\n\tmatch xml_def_path {\n";
pub const FOLDER_TAIL: &'static str = "\t\t_ => panic!(\"XML definition of path {xml_def_path} not found.\"),\n\t}\n}\n";

/// The arm that opens a window: its type's types are registered, then one is made.
pub open spec fn create_window_arm(c: ItemSpec) -> Seq<char> {
    "\t\t\""@ + c.xml_def_path + "\" => {crate::content::"@ + c.mod_location
        + "::ensure_all_types(); gtk::glib::Object::new::<crate::content::"@ + c.mod_location
        + ">().upcast()},\n"@
}

/// One chunk's arguments, as a vector of string literals.
pub open spec fn args_source(args: Seq<Seq<char>>) -> Seq<char> {
    "vec![\""@ + join(args, "\",\""@) + "\"]"@
}

/// The arm that gives a kind of content's arguments: one vector per chunk.
pub open spec fn info_arm(i: InfoSpec) -> Seq<char> {
    "\t\t\t\""@ + i.content_type + "\" => vec!["@
        + join(i.subcontent.map_values(|a: Seq<Seq<char>>| args_source(a)), ","@) + "],\n"@
}

/// The arm that gives the arguments of a window's kinds of content.
pub open spec fn args_window_arm(c: ItemSpec) -> Seq<char> {
    "\t\t\""@ + c.xml_def_path + "\" => match content_type {\n"@
        + concat_all(c.content_info.map_values(|i: InfoSpec| info_arm(i))) + ARGS_WINDOW_TAIL@
}

/// The arm that gives a window's folder: its party pack, then its game folder.
pub open spec fn folder_arm(c: ItemSpec) -> Seq<char> {
    "\t\t\""@ + c.xml_def_path + "\" => std::path::Path::new(\""@ + c.party_pack + "/"@
        + c.game_folder + "\"),\n"@
}

/// The compiled source: `create_window`, `get_subcontent_args` and `get_relative_folder`,
/// each with one arm per window.
pub open spec fn content_list_source(items: Seq<ItemSpec>) -> Seq<char> {
    CREATE_WINDOW_HEAD@ + concat_all(items.map_values(|c: ItemSpec| create_window_arm(c)))
        + CREATE_WINDOW_TAIL@ + ARGS_HEAD@
        + concat_all(items.map_values(|c: ItemSpec| args_window_arm(c))) + ARGS_TAIL@
        + FOLDER_HEAD@ + concat_all(items.map_values(|c: ItemSpec| folder_arm(c)))
        + FOLDER_TAIL@
}

fn create_window_arm_exec(c: &ContentWindowItem) -> (r: String)
    ensures
        r@ == create_window_arm(c@),
{
    let mut r = String::from_str("\t\t\"");
    r.append(c.xml_def_path.as_str());
    r.append("\" => {crate::content::");
    r.append(c.mod_location.as_str());
    r.append("::ensure_all_types(); gtk::glib::Object::new::<crate::content::");
    r.append(c.mod_location.as_str());
    r.append(">().upcast()},\n");
    r
}

fn folder_arm_exec(c: &ContentWindowItem) -> (r: String)
    ensures
        r@ == folder_arm(c@),
{
    let mut r = String::from_str("\t\t\"");
    r.append(c.xml_def_path.as_str());
    r.append("\" => std::path::Path::new(\"");
    r.append(c.party_pack.as_str());
    r.append("/");
    r.append(c.game_folder.as_str());
    r.append("\"),\n");
    r
}

fn args_source_exec(s: &SubcontentInfo) -> (r: String)
    ensures
        r@ == args_source(sub_view(*s)),
{
    let mut r = String::from_str("vec![\"");
    append_join(&mut r, &s.args, "\",\"");
    r.append("\"]");
    r
}

fn info_arm_exec(i: &ContentInfo) -> (r: String)
    ensures
        r@ == info_arm(info_view(*i)),
{
    let mut parts: Vec<String> = Vec::new();
    let mut k: usize = 0;
    while k < i.subcontent_info.len()
        invariant
            k <= i.subcontent_info@.len(),
            strings_view(parts@) == info_view(*i).subcontent.take(k as int).map_values(|a: Seq<Seq<char>>| args_source(a)),
        decreases i.subcontent_info@.len() - k,
    {
        let part = args_source_exec(&i.subcontent_info[k]);
        let ghost old_parts = parts@;
        parts.push(part);
        proof {
            let f = |a: Seq<Seq<char>>| args_source(a);
            assert(info_view(*i).subcontent[k as int] == sub_view(i.subcontent_info@[k as int]));
            assert(info_view(*i).subcontent.take(k + 1).map_values(f)
                =~= info_view(*i).subcontent.take(k as int).map_values(f).push(args_source(info_view(*i).subcontent[k as int])));
            assert(strings_view(parts@) =~= strings_view(old_parts).push(parts@[k as int]@));
        }
        k = k + 1;
    }
    proof {
        assert(info_view(*i).subcontent.take(k as int) =~= info_view(*i).subcontent);
    }
    let mut r = String::from_str("\t\t\t\"");
    r.append(i.content_type.as_str());
    r.append("\" => vec![");
    append_join(&mut r, &parts, ",");
    r.append("],\n");
    r
}

fn args_window_arm_exec(c: &ContentWindowItem) -> (r: String)
    ensures
        r@ == args_window_arm(c@),
{
    let mut r = String::from_str("\t\t\"");
    r.append(c.xml_def_path.as_str());
    r.append("\" => match content_type {\n");
    let ghost start = r@;
    let ghost infos = c@.content_info;
    let mut k: usize = 0;
    while k < c.content_info.len()
        invariant
            k <= c.content_info@.len(),
            infos == infos_view(c.content_info@),
            r@ == start + concat_all(infos.take(k as int).map_values(|i: InfoSpec| info_arm(i))),
        decreases c.content_info@.len() - k,
    {
        let arm = info_arm_exec(&c.content_info[k]);
        r.append(arm.as_str());
        proof {
            let f = |i: InfoSpec| info_arm(i);
            let t = infos.take(k + 1).map_values(f);
            assert(t.drop_last() =~= infos.take(k as int).map_values(f));
            assert(t.last() == info_arm(infos[k as int]));
            assert(r@ =~= start + concat_all(t));
        }
        k = k + 1;
    }
    proof {
        assert(infos.take(k as int) =~= infos);
    }
    r.append(ARGS_WINDOW_TAIL);
    r
}

/// The Rust source compiled from the windows of the content list (see
/// [`content_list_source`]).
pub fn compile_content_list(content: &Vec<ContentWindowItem>) -> (r: String)
    ensures
        r@ == content_list_source(items_view(content@)),
{
    let ghost items = items_view(content@);
    let mut out = String::from_str(CREATE_WINDOW_HEAD);
    let ghost s0 = out@;
    let mut k: usize = 0;
    while k < content.len()
        invariant
            k <= content@.len(),
            items == items_view(content@),
            out@ == s0 + concat_all(items.take(k as int).map_values(|c: ItemSpec| create_window_arm(c))),
        decreases content@.len() - k,
    {
        let arm = create_window_arm_exec(&content[k]);
        out.append(arm.as_str());
        proof {
            let f = |c: ItemSpec| create_window_arm(c);
            let t = items.take(k + 1).map_values(f);
            assert(t.drop_last() =~= items.take(k as int).map_values(f));
            assert(out@ =~= s0 + concat_all(t));
        }
        k = k + 1;
    }
    proof {
        assert(items.take(k as int) =~= items);
    }
    out.append(CREATE_WINDOW_TAIL);
    out.append(ARGS_HEAD);
    let ghost s1 = out@;
    let mut k: usize = 0;
    while k < content.len()
        invariant
            k <= content@.len(),
            items == items_view(content@),
            out@ == s1 + concat_all(items.take(k as int).map_values(|c: ItemSpec| args_window_arm(c))),
        decreases content@.len() - k,
    {
        let arm = args_window_arm_exec(&content[k]);
        out.append(arm.as_str());
        proof {
            let f = |c: ItemSpec| args_window_arm(c);
            let t = items.take(k + 1).map_values(f);
            assert(t.drop_last() =~= items.take(k as int).map_values(f));
            assert(out@ =~= s1 + concat_all(t));
        }
        k = k + 1;
    }
    proof {
        assert(items.take(k as int) =~= items);
    }
    out.append(ARGS_TAIL);
    out.append(FOLDER_HEAD);
    let ghost s2 = out@;
    let mut k: usize = 0;
    while k < content.len()
        invariant
            k <= content@.len(),
            items == items_view(content@),
            out@ == s2 + concat_all(items.take(k as int).map_values(|c: ItemSpec| folder_arm(c))),
        decreases content@.len() - k,
    {
        let arm = folder_arm_exec(&content[k]);
        out.append(arm.as_str());
        proof {
            let f = |c: ItemSpec| folder_arm(c);
            let t = items.take(k + 1).map_values(f);
            assert(t.drop_last() =~= items.take(k as int).map_values(f));
            assert(out@ =~= s2 + concat_all(t));
        }
        k = k + 1;
    }
    proof {
        assert(items.take(k as int) =~= items);
    }
    out.append(FOLDER_TAIL);
    out
}

} // verus!
