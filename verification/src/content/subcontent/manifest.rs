//! A manifest file that lists content: a JSON array of objects, each with an `id`.
use vstd::prelude::*;
use vstd::string::*;
use crate::json::{
    json_bytes_accepted, json_display_text, json_member, json_member_of, json_map_clone, json_map_insert, json_map_inserted, json_map_text,
    json_map_to_bytes, json_object, json_object_value, json_string, json_string_value, json_value_display,
    json_value_from_bytes, json_value_of_bytes,
};
use crate::text::{latin1_bytes, unlatin1};
use crate::util::manifest_laws::{
    at_out_end, holds_bytes, lemma_emit_extends, lemma_extends_trans, lemma_holds_appended, lemma_holds_extended,
    lemma_read_item_extends, out_extends,
};
use crate::util::manifest_spec::{containers, lemma_scan_bounds, overwrite, skip_sep, skip_ws, ErrSpec, ItemSpec, MachineSpec, ManifestParseState, NodeSpec, SinkSpec};
use crate::text::is_ws;
use crate::util::manifest_writer::{ArrayItem, ManifestError, ManifestWriter, node_result};

verus! {

/// The text `"id"`: how the id of a manifest item reads as JSON.
pub open spec fn quoted(id: Seq<char>) -> Seq<char> {
    seq!['"'] + id + seq!['"']
}

/// The JSON text of the `id` member of an item, for bytes that serde_json reads as a JSON
/// value; `None` where the value is not an object or has no `id`.
pub open spec fn item_id_text(bytes: Seq<u8>) -> Option<Seq<char>> {
    match json_member_of(json_value_of_bytes(bytes), "id"@) {
        Some(x) => Some(json_display_text(x)),
        None => None,
    }
}

/// Once the array has closed: the new item, after a comma when the array had items, unless it
/// replaced one already; then the closing bracket, and the rest of the file as it was.
pub open spec fn upsert_finish(m: MachineSpec, item: Seq<u8>, nonzero: bool, written: bool) -> MachineSpec {
    let m1 = if written {
        m
    } else if nonzero {
        m.emit(seq![44u8]).emit(item)
    } else {
        m.emit(item)
    };
    m1.emit(seq![93u8]).advance(m.input.len() as int)
}

/// Going through the items of the manifest array: each item whose `id` is `id` is replaced by
/// `item`, every other item is copied as it was read; when the array closes, `item` is
/// appended if it replaced nothing. `None` where a scalar item is text that serde_json
/// rejects.
pub open spec fn upsert_loop(m: MachineSpec, id: Seq<char>, item: Seq<u8>, nonzero: bool, written: bool) -> Option<(Result<(), ErrSpec>, MachineSpec)>
    decreases m.input.len() - m.pos,
    when m.wf()
{
    let (b, o, m2) = m.read_item();
    match o {
        None => Some((Ok(()), upsert_finish(m2, item, nonzero, written))),
        Some(Err(e)) => Some((Err(e), m2)),
        Some(Ok(ItemSpec::Scalar(t))) => {
            if !json_bytes_accepted(unlatin1(t)) {
                None
            } else {
                proof {
                    m.lemma_read_item_progress();
                }
                upsert_loop(m2.emit_outfile(b), id, item, true, written)
            }
        },
        Some(Ok(ItemSpec::Container(c))) => {
            if !json_bytes_accepted(c) {
                Some((Err(ErrSpec::SerdeJson), m2))
            } else if item_id_text(c) == Some(quoted(id)) {
                proof {
                    m.lemma_read_item_progress();
                }
                upsert_loop(m2.emit_outfile(item), id, item, true, true)
            } else {
                proof {
                    m.lemma_read_item_progress();
                }
                upsert_loop(m2.emit_outfile(b), id, item, true, written)
            }
        },
    }
}

/// Writing `item` under `id` into the manifest `input`: the file as it comes out, an error, or
/// `None` where a scalar item of the array is text that serde_json rejects.
pub open spec fn upsert_spec(input: Seq<u8>, id: Seq<char>, item: Seq<u8>) -> Option<Result<Seq<u8>, ErrSpec>> {
    let (r, m1) = MachineSpec::initial(input).init_step();
    match r {
        Err(e) => Some(Err(e)),
        Ok(_) => match upsert_loop(m1, id, item, false, false) {
            None => None,
            Some((Err(e), _)) => Some(Err(e)),
            Some((Ok(_), m)) => Some(Ok(m.out)),
        },
    }
}

/// The manifest written into: the given bytes, or a new, empty manifest.
pub open spec fn manifest_input(manifest: Option<Vec<u8>>) -> Seq<u8> {
    match manifest {
        Some(b) => b@,
        None => seq![91u8, 10u8, 93u8],
    }
}

/// The model of an upsert result.
pub open spec fn bytes_result(r: Result<Vec<u8>, ManifestError>) -> Result<Seq<u8>, ErrSpec> {
    match r {
        Ok(b) => Ok(b@),
        Err(e) => Err(e@),
    }
}

/// The upsert loop on a reader that has entered the manifest array. `None` where a scalar item
/// is rejected by serde_json.
fn upsert_run(w: &mut ManifestWriter, id: &String, item: &[u8]) -> (r: Option<Result<(), ManifestError>>)
    requires
        old(w)@.wf(),
    ensures
        final(w)@.wf(),
        upsert_loop(old(w)@, id@, item@, false, false) is None <==> r is None,
        r matches Some(x) ==> upsert_loop(old(w)@, id@, item@, false, false) == Some((
            match x {
                Ok(_) => Ok::<(), ErrSpec>(()),
                Err(e) => Err(e@),
            },
            final(w)@,
        )),
{
    let ghost m = old(w)@;
    let mut quoted_id = String::from_str("\"");
    quoted_id.append(id.as_str());
    quoted_id.append("\"");
    proof {
        reveal_strlit("\"");
        assert(quoted_id@ =~= quoted(id@));
    }
    let mut nonzero = false;
    let mut written = false;
    let mut result: Option<Result<(), ManifestError>> = None;
    loop
        invariant_except_break
            w@.wf(),
            w@.input == m.input,
            upsert_loop(m, id@, item@, false, false) == upsert_loop(w@, id@, item@, nonzero, written),
        invariant
            quoted_id@ == quoted(id@),
        ensures
            w@.wf(),
            upsert_loop(m, id@, item@, false, false) is None <==> result is None,
            result matches Some(x) ==> upsert_loop(m, id@, item@, false, false) == Some((
                match x {
                    Ok(_) => Ok::<(), ErrSpec>(()),
                    Err(e) => Err(e@),
                },
                w@,
            )),
        decreases w@.input.len() - w@.pos,
    {
        let ghost before = w@;
        proof {
            before.lemma_read_item_progress();
        }
        let (buf, item_opt) = w.read_array_item_text();
        match item_opt {
            None => {
                if !written {
                    if nonzero {
                        proof {
                            w@.lemma_emit_wpos(seq![44u8]);
                        }
                        let comma: [u8; 1] = [44];
                        proof {
                            assert(comma@ =~= seq![44u8]);
                        }
                        let _ = w.write(comma.as_slice());
                    }
                    proof {
                        w@.lemma_emit_wpos(item@);
                    }
                    let _ = w.write(item);
                }
                let close: [u8; 1] = [93];
                proof {
                    assert(close@ =~= seq![93u8]);
                    w@.lemma_emit_wpos(seq![93u8]);
                }
                let _ = w.write(close.as_slice());
                let _ = w.flush();
                result = Some(Ok(()));
                break;
            },
            Some(Err(e)) => {
                result = Some(Err(e));
                break;
            },
            Some(Ok(ArrayItem::Scalar(t))) => {
                nonzero = true;
                let t_bytes = latin1_bytes(t.as_str());
                match json_value_from_bytes(t_bytes.as_slice()) {
                    Err(_) => {
                        result = None;
                        break;
                    },
                    Ok(_) => {},
                }
                let _ = w.write_to_outfile(buf.as_slice());
            },
            Some(Ok(ArrayItem::Container(c))) => {
                nonzero = true;
                match json_value_from_bytes(c.as_slice()) {
                    Err(e) => {
                        result = Some(Err(ManifestError::SerdeJsonErr(e)));
                        break;
                    },
                    Ok(v) => {
                        let matched = match json_member(&v, "id") {
                            Some(x) => json_value_display(&x).eq(&quoted_id),
                            None => false,
                        };
                        if matched {
                            let _ = w.write_to_outfile(item);
                            written = true;
                        } else {
                            let _ = w.write_to_outfile(buf.as_slice());
                        }
                    },
                }
            },
        }
    }
    result
}

/// Writes `item` (the JSON text of an object) under `id` into a manifest: every item of the
/// array whose `id` is `id` is replaced by `item`; if there is none, `item` is appended (after
/// a comma when the array has items). Returns the bytes of the manifest as it is written out.
pub fn upsert_manifest(manifest: Vec<u8>, id: &String, item: &[u8]) -> (r: Result<Vec<u8>, ManifestError>)
    requires
        upsert_spec(manifest@, id@, item@) is Some,
    ensures
        upsert_spec(manifest@, id@, item@) == Some(bytes_result(r)),
{
    let mut w = ManifestWriter::from_bytes(manifest);
    let ghost m0 = w@;
    match w.initialize() {
        Err(e) => {
            return Err(e);
        },
        Ok(_) => {},
    }
    proof {
        assert(m0.top() == ManifestParseState::Uninitialized);
    }
    match upsert_run(&mut w, id, item) {
        None => {
            proof {
                assert(false);
            }
            Err(ManifestError::UnexpectedEOF())
        },
        Some(Err(e)) => Err(e),
        Some(Ok(_)) => Ok(w.into_output()),
    }
}

/// Whether writing `item` under `id` into the manifest meets no scalar item that serde_json
/// rejects.
pub fn upsert_scalars_parse(manifest: &Vec<u8>, id: &String, item: &[u8]) -> (r: bool)
    ensures
        r == (upsert_spec(manifest@, id@, item@) is Some),
{
    let mut w = ManifestWriter::from_bytes(manifest.clone());
    match w.initialize() {
        Err(_) => {
            return true;
        },
        Ok(_) => {},
    }
    upsert_run(&mut w, id, item).is_some()
}

/// The JSON text of an item written under `id`: its content with the member `"id": id`
/// inserted, as serde_json writes it.
pub open spec fn item_text(content: serde_json::Map<String, serde_json::Value>, id: Seq<char>) -> Seq<u8> {
    json_map_text(json_map_inserted(content, "id"@, json_string(id)))
}

/// A manifest.jet file that lists our content.
#[derive(Debug)]
pub struct ManifestItem {
    /// The members of the content to write.
    item_content: serde_json::Map<String, serde_json::Value>,
}

impl ManifestItem {
    /// The members of the content.
    pub closed spec fn content_map(&self) -> serde_json::Map<String, serde_json::Value> {
        self.item_content
    }

    pub fn new(item_content: serde_json::Map<String, serde_json::Value>) -> (r: Self)
        ensures
            r.content_map() == item_content,
    {
        ManifestItem { item_content }
    }

    /// The content, as a JSON object.
    pub fn content(&self) -> (r: serde_json::Value)
        ensures
            r == json_object(self.content_map()),
    {
        json_object_value(&self.item_content)
    }

    /// The bytes of a new, empty manifest: an array, so that manifests merge easily.
    pub fn create_manifest() -> (r: Vec<u8>)
        ensures
            r@ == seq![91u8, 10u8, 93u8],
    {
        let mut v: Vec<u8> = Vec::new();
        v.push(91);
        v.push(10);
        v.push(93);
        proof {
            assert(v@ =~= seq![91u8, 10u8, 93u8]);
        }
        v
    }

    /// Writes this item under `id` into the manifest (`None`: there is no manifest yet, and a
    /// new one is started). The item is the content with `"id": id` added, as serde_json
    /// serialises it; see [`upsert_manifest`]. Returns `None`, having done nothing, where the
    /// manifest holds a scalar item that serde_json rejects.
    pub fn write_to_mod(&self, id: String, manifest: Option<Vec<u8>>) -> (r: Option<Result<Vec<u8>, ManifestError>>)
        ensures
            match upsert_spec(manifest_input(manifest), id@, item_text(self.content_map(), id@)) {
                None => r is None,
                Some(x) => r matches Some(y) && bytes_result(y) == x,
            },
    {
        let ghost spec_input = manifest_input(manifest);
        let input = match manifest {
            Some(b) => b,
            None => ManifestItem::create_manifest(),
        };
        assert(input@ == spec_input);
        // The content, with the id added.
        let mut to_insert = json_map_clone(&self.item_content);
        json_map_insert(&mut to_insert, String::from_str("id"), json_string_value(id.clone()));
        let serde_out = match json_map_to_bytes(&to_insert) {
            Ok(b) => b,
            Err(e) => {
                proof {
                    assert(false);
                }
                return Some(Err(ManifestError::SerdeJsonErr(e)));
            },
        };
        assert(serde_out@ == item_text(self.content_map(), id@));
        if !upsert_scalars_parse(&input, &id, serde_out.as_slice()) {
            return None;
        }
        let ghost input_view = input@;
        let r = upsert_manifest(input, &id, serde_out.as_slice());
        let res = Some(r);
        proof {
            assert(upsert_spec(spec_input, id@, serde_out@) == Some(bytes_result(r)));
            assert(match upsert_spec(spec_input, id@, serde_out@) {
                None => res is None,
                Some(x) => res matches Some(y) && bytes_result(y) == x,
            });
        }
        res
    }
}

/// A new manifest holds exactly the item written into it: writing any item under any id into
/// the empty manifest `[` newline `]` gives `[`, the item, `]`.
pub proof fn law_new_manifest_holds_item(id: Seq<char>, item: Seq<u8>)
    ensures
        upsert_spec(seq![91u8, 10u8, 93u8], id, item) == Some(Ok::<Seq<u8>, ErrSpec>(seq![91u8] + item + seq![93u8])),
{
    let input = seq![91u8, 10u8, 93u8];
    let m0 = MachineSpec::initial(input);
    let s0 = m0.with_stack(seq![ManifestParseState::Empty]);
    assert(skip_ws(input, 0) == 0);
    let a = s0.advance(1);
    assert(input.subrange(0, 1) =~= seq![91u8]);
    assert(overwrite(Seq::<u8>::empty(), 0, seq![91u8]) =~= seq![91u8]);
    let m1 = a.open(ManifestParseState::ArrayParse);
    assert(m0.init_step() == (Ok::<NodeSpec, ErrSpec>(NodeSpec::ArrayStart), m1));
    assert(m1.out == seq![91u8]);
    assert(m1.stack =~= seq![ManifestParseState::Empty, ManifestParseState::ArrayParse]);
    assert(containers(m1.stack.drop_last()) == 0) by {
        let e = seq![ManifestParseState::Empty];
        assert(m1.stack.drop_last() =~= e);
        assert(e.drop_last() =~= Seq::<ManifestParseState>::empty());
        assert(containers(Seq::<ManifestParseState>::empty()) == 0);
        assert(e.last() == ManifestParseState::Empty);
        assert(containers(e) == containers(e.drop_last()));
    }
    assert(m1.wf());
    // Reading the first item finds the end of the array.
    let mb = m1.with_sink(SinkSpec::Buffer(Seq::empty()));
    assert(is_ws(10u8));
    assert(skip_sep(input, 2) == 2);
    assert(skip_sep(input, 1) == 2);
    let c = mb.advance(3);
    let closed = c.close();
    assert(mb.array_step() == (Ok::<NodeSpec, ErrSpec>(NodeSpec::ArrayClose), closed));
    let (b, o, m2) = m1.read_item();
    assert(o is None);
    assert(m2.sink is OutFile && m2.out == seq![91u8] && m2.wpos == 1 && m2.pos == 3);
    assert(upsert_loop(m1, id, item, false, false) == Some((Ok::<(), ErrSpec>(()), upsert_finish(m2, item, false, false))));
    // The item, then the closing bracket.
    let e1 = m2.emit(item);
    assert(overwrite(seq![91u8], 1, item) =~= seq![91u8] + item);
    let e2 = e1.emit(seq![93u8]);
    assert(overwrite(seq![91u8] + item, (1 + item.len()) as int, seq![93u8]) =~= seq![91u8] + item + seq![93u8]);
    e2.lemma_advance_none();
}

/// Going through the array only appends to the output file, and once the item was written
/// (and so held by the output) the output holds it at the end.
proof fn lemma_upsert_loop_keeps(m: MachineSpec, id: Seq<char>, item: Seq<u8>, nonzero: bool, written: bool)
    requires
        m.wf(),
        at_out_end(m),
        m.sink is OutFile,
        upsert_loop(m, id, item, nonzero, written) matches Some((Ok(_), _)),
    ensures
        upsert_loop(m, id, item, nonzero, written) matches Some((Ok(_), m3)) && out_extends(m, m3)
            && ((written ==> holds_bytes(m.out, item)) ==> holds_bytes(m3.out, item)),
    decreases m.input.len() - m.pos,
{
    m.lemma_read_item_progress();
    lemma_read_item_extends(m);
    let (b, o, m2) = m.read_item();
    match o {
        None => {
            let m1 = if written {
                m2
            } else if nonzero {
                m2.emit(seq![44u8]).emit(item)
            } else {
                m2.emit(item)
            };
            if written {
                if holds_bytes(m.out, item) {
                    lemma_holds_extended(m, m2, item);
                }
            } else if nonzero {
                lemma_emit_extends(m2, seq![44u8]);
                let c = m2.emit(seq![44u8]);
                lemma_holds_appended(c, item);
                lemma_emit_extends(c, item);
                lemma_extends_trans(m, m2, c);
                lemma_extends_trans(m, c, m1);
            } else {
                lemma_holds_appended(m2, item);
                lemma_emit_extends(m2, item);
                lemma_extends_trans(m, m2, m1);
            }
            lemma_emit_extends(m1, seq![93u8]);
            let m4 = m1.emit(seq![93u8]);
            lemma_extends_trans(m, m1, m4);
            if holds_bytes(m1.out, item) {
                lemma_holds_extended(m1, m4, item);
            }
            m2.lemma_emit_wpos(seq![44u8]);
            let p = m.input.len() as int;
            lemma_emit_extends(m4, m4.input.subrange(m4.pos, p));
            let m5 = m4.advance(p);
            assert(m5.out == m4.emit(m4.input.subrange(m4.pos, p)).out);
            lemma_extends_trans(m, m4, m5);
            if holds_bytes(m4.out, item) {
                lemma_holds_extended(m4, m5, item);
            }
        },
        Some(Err(e)) => {},
        Some(Ok(ItemSpec::Scalar(t))) => {
            if json_bytes_accepted(unlatin1(t)) {
                let n = m2.emit_outfile(b);
                lemma_emit_extends(m2, b);
                lemma_extends_trans(m, m2, n);
                if written && holds_bytes(m.out, item) {
                    lemma_holds_extended(m, n, item);
                }
                lemma_upsert_loop_keeps(n, id, item, true, written);
                let m3 = upsert_loop(n, id, item, true, written)->Some_0.1;
                lemma_extends_trans(m, n, m3);
            }
        },
        Some(Ok(ItemSpec::Container(c))) => {
            if json_bytes_accepted(c) {
                if item_id_text(c) == Some(quoted(id)) {
                    let n = m2.emit_outfile(item);
                    lemma_emit_extends(m2, item);
                    lemma_holds_appended(m2, item);
                    lemma_extends_trans(m, m2, n);
                    lemma_upsert_loop_keeps(n, id, item, true, true);
                    let m3 = upsert_loop(n, id, item, true, true)->Some_0.1;
                    lemma_extends_trans(m, n, m3);
                } else {
                    let n = m2.emit_outfile(b);
                    lemma_emit_extends(m2, b);
                    lemma_extends_trans(m, m2, n);
                    if written && holds_bytes(m.out, item) {
                        lemma_holds_extended(m, n, item);
                    }
                    lemma_upsert_loop_keeps(n, id, item, true, written);
                    let m3 = upsert_loop(n, id, item, true, written)->Some_0.1;
                    lemma_extends_trans(m, n, m3);
                }
            }
        },
    }
}

/// Each object or array item of the manifest is copied through unless its `id` is the id
/// written: where the next item read is one whose `id` member's JSON text is not the id in
/// quotes, the output carries on with the item's bytes exactly as they were read; where it is,
/// the output carries on with the new item in its place.
pub proof fn law_upsert_copies_or_replaces(m: MachineSpec, id: Seq<char>, item: Seq<u8>, nonzero: bool, written: bool)
    requires
        m.wf(),
        at_out_end(m),
        m.sink is OutFile,
        upsert_loop(m, id, item, nonzero, written) matches Some((Ok(_), _)),
        m.read_item().1 matches Some(Ok(ItemSpec::Container(_))),
    ensures
        ({
            let (b, o, m2) = m.read_item();
            let c = o->Some_0->Ok_0->Container_0;
            let out = upsert_loop(m, id, item, nonzero, written)->Some_0.1.out;
            let same_id = json_member_of(json_value_of_bytes(c), "id"@) matches Some(x)
                && json_display_text(x) == seq!['"'] + id + seq!['"'];
            &&& !same_id ==> (m2.out + b).is_prefix_of(out)
            &&& same_id ==> (m2.out + item).is_prefix_of(out)
        }),
{
    m.lemma_read_item_progress();
    lemma_read_item_extends(m);
    let (b, o, m2) = m.read_item();
    let c = o->Some_0->Ok_0->Container_0;
    assert(json_bytes_accepted(c));
    let same = item_id_text(c) == Some(quoted(id));
    let x = if same { item } else { b };
    let n = m2.emit_outfile(x);
    lemma_emit_extends(m2, x);
    assert(upsert_loop(m, id, item, nonzero, written) == upsert_loop(n, id, item, true, written || same));
    lemma_upsert_loop_keeps(n, id, item, true, written || same);
    let m3 = upsert_loop(n, id, item, true, written || same)->Some_0.1;
    assert(m3.out.subrange(0, n.out.len() as int) == n.out);
    assert(n.out.is_prefix_of(m3.out));
    assert(item_id_text(c) == Some(quoted(id)) <==> (json_member_of(json_value_of_bytes(c), "id"@) matches Some(x)
        && json_display_text(x) == seq!['"'] + id + seq!['"']));
}

/// Scalar items of the manifest are copied through: where the next item read is a scalar,
/// the output carries on with its bytes exactly as they were read.
pub proof fn law_upsert_copies_scalars(m: MachineSpec, id: Seq<char>, item: Seq<u8>, nonzero: bool, written: bool)
    requires
        m.wf(),
        at_out_end(m),
        m.sink is OutFile,
        upsert_loop(m, id, item, nonzero, written) matches Some((Ok(_), _)),
        m.read_item().1 matches Some(Ok(ItemSpec::Scalar(_))),
    ensures
        (m.read_item().2.out + m.read_item().0).is_prefix_of(upsert_loop(m, id, item, nonzero, written)->Some_0.1.out),
{
    m.lemma_read_item_progress();
    lemma_read_item_extends(m);
    let (b, o, m2) = m.read_item();
    let n = m2.emit_outfile(b);
    lemma_emit_extends(m2, b);
    assert(upsert_loop(m, id, item, nonzero, written) == upsert_loop(n, id, item, true, written));
    lemma_upsert_loop_keeps(n, id, item, true, written);
    let m3 = upsert_loop(n, id, item, true, written)->Some_0.1;
    assert(m3.out.subrange(0, n.out.len() as int) == n.out);
}

/// When the manifest array closes, the item is appended unless it replaced one already:
/// after a comma where the array had items before it, then the closing bracket, then the rest
/// of the manifest as it was; and writing succeeds.
pub proof fn law_upsert_closes_array(m: MachineSpec, id: Seq<char>, item: Seq<u8>, nonzero: bool, written: bool)
    requires
        m.wf(),
        at_out_end(m),
        m.sink is OutFile,
        m.read_item().1 is None,
    ensures
        upsert_loop(m, id, item, nonzero, written) matches Some((r, m3)) && r is Ok && m3.out == m.read_item().2.out + (
            if written {
                Seq::<u8>::empty()
            } else if nonzero {
                seq![44u8] + item
            } else {
                item
            }) + seq![93u8] + m.input.skip(m.read_item().2.pos),
{
    m.lemma_read_item_progress();
    lemma_read_item_extends(m);
    let (b, o, m2) = m.read_item();
    let added = if written {
        Seq::<u8>::empty()
    } else if nonzero {
        seq![44u8] + item
    } else {
        item
    };
    let m1 = if written {
        m2
    } else if nonzero {
        m2.emit(seq![44u8]).emit(item)
    } else {
        m2.emit(item)
    };
    lemma_emit_extends(m2, seq![44u8]);
    lemma_emit_extends(m2.emit(seq![44u8]), item);
    lemma_emit_extends(m2, item);
    if written {
        assert(m2.out + added =~= m2.out);
    } else if nonzero {
        assert(m2.out + seq![44u8] + item =~= m2.out + added);
    }
    assert(m1.out == m2.out + added);
    assert(m1.sink is OutFile);
    let m4 = m1.emit(seq![93u8]);
    lemma_emit_extends(m1, seq![93u8]);
    let p = m.input.len() as int;
    let rest = m4.input.subrange(m4.pos, p);
    lemma_emit_extends(m4, rest);
    let m5 = m4.advance(p);
    assert(m5.out == m4.emit(rest).out);
    assert(rest =~= m.input.skip(m2.pos));
    assert(m5 == upsert_finish(m2, item, nonzero, written));
}

/// What is written stays written: whenever writing an item into a manifest succeeds, the
/// manifest that comes out holds the item's bytes, and begins as the manifest did, up to and
/// including the bracket that opens its array.
pub proof fn law_written_item_kept(input: Seq<u8>, id: Seq<char>, item: Seq<u8>)
    requires
        upsert_spec(input, id, item) matches Some(Ok(_)),
    ensures
        upsert_spec(input, id, item) matches Some(Ok(out)) && holds_bytes(out, item)
            && out.subrange(0, skip_ws(input, 0) + 1) == input.subrange(0, skip_ws(input, 0) + 1),
{
    let m0 = MachineSpec::initial(input);
    let s0 = m0.with_stack(seq![ManifestParseState::Empty]);
    lemma_scan_bounds(input, 0);
    let j = skip_ws(input, 0);
    let (r, m1) = m0.init_step();
    assert(j < input.len());
    let a = s0.advance(j + 1);
    lemma_emit_extends(s0, input.subrange(0, j + 1));
    assert(a.out =~= input.subrange(0, j + 1));
    assert(m1 == a.open(ManifestParseState::ObjectParse) || m1 == a.open(ManifestParseState::ArrayParse));
    assert(m0.stack.drop_last() =~= Seq::<ManifestParseState>::empty());
    assert(containers(Seq::<ManifestParseState>::empty()) == 0);
    assert(containers(m0.stack) == 0);
    assert(m0.wf());
    m0.lemma_step_progress();
    assert(m0.parse_step() == m0.init_step());
    lemma_upsert_loop_keeps(m1, id, item, false, false);
    let m3 = upsert_loop(m1, id, item, false, false)->Some_0.1;
    assert(m3.out.subrange(0, j + 1) == m1.out);
}

} // verus!
