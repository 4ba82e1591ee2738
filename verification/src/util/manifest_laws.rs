//! What the manifest reader promises over many steps: every byte it reads is passed on,
//! unchanged and in order, to where it is writing, so that a manifest read through with the
//! output file as the sink is written back as it was.
use vstd::prelude::*;
use crate::text::is_ws;
use super::manifest_spec::{
    lemma_lit_bounds, lemma_scan_bounds, lit_mismatch, lit_ok, numeric_end, overwrite, skip_sep, skip_ws,
    string_stop, buffer_of, containers, ErrSpec, MachineSpec, ManifestParseState, NodeSpec, SinkSpec, ALSE, CLOSE_BRACE, CLOSE_BRACKET, MINUS,
    OPEN_BRACE, OPEN_BRACKET, QUOTE, RUE, ULL, COMMA,
};

verus! {

/// `m` with the parse stack and depth replaced.
pub open spec fn with_parse(m: MachineSpec, stack: Seq<ManifestParseState>, depth: int) -> MachineSpec {
    MachineSpec { stack, depth, ..m }
}

/// `m2` follows `m1` by reading on: its input is the same, it has not read backwards, and
/// apart from the parse stack it is `m1` with the bytes in between passed on to the sink.
pub open spec fn emits_read(m1: MachineSpec, m2: MachineSpec) -> bool {
    &&& m2.input == m1.input
    &&& 0 <= m1.pos <= m2.pos <= m1.input.len()
    &&& with_parse(m2, m1.stack, m1.depth) == m1.advance(m2.pos)
}

proof fn lemma_emits_advance(m: MachineSpec, p: int)
    requires
        0 <= m.pos <= p <= m.input.len(),
    ensures
        emits_read(m, m.advance(p)),
{
    assert(with_parse(m.advance(p), m.stack, m.depth) == m.advance(p));
}

/// A change of the parse stack alone reads nothing.
proof fn lemma_emits_parse_only(m: MachineSpec, m2: MachineSpec)
    requires
        0 <= m.pos <= m.input.len(),
        m2 == with_parse(m, m2.stack, m2.depth),
    ensures
        emits_read(m, m2),
{
    m.lemma_emit_empty();
    assert(m.input.subrange(m.pos, m.pos) =~= Seq::<u8>::empty());
    assert(with_parse(m2, m.stack, m.depth) == m);
}

proof fn lemma_emits_trans(m1: MachineSpec, m2: MachineSpec, m3: MachineSpec)
    requires
        0 <= m1.wpos,
        emits_read(m1, m2),
        emits_read(m2, m3),
    ensures
        emits_read(m1, m3),
{
    m1.lemma_advance_trans(m2.pos, m3.pos);
    let n2 = with_parse(m2, m1.stack, m1.depth);
    assert(n2.advance(m3.pos) == with_parse(m2.advance(m3.pos), m1.stack, m1.depth));
}

proof fn lemma_emits_literal(m: MachineSpec, first: u8, rest: Seq<u8>)
    requires
        0 <= m.pos <= m.input.len(),
    ensures
        emits_read(m, m.literal_step(first, rest).1),
{
    m.lemma_literal_progress(first, rest);
    lemma_lit_bounds(m.input, m.pos, rest, 0);
    let k = lit_mismatch(m.input, m.pos, rest, 0);
    if k >= rest.len() {
        if rest.len() > 0 {
            assert(lit_ok(m.input, m.pos, rest, rest.len() - 1));
        }
        lemma_emits_advance(m, m.pos + rest.len());
    } else if m.pos + k >= m.input.len() {
        lemma_emits_advance(m, m.input.len() as int);
    } else {
        lemma_emits_advance(m, m.pos + k + 1);
    }
}

proof fn lemma_emits_value(m: MachineSpec, c: u8)
    requires
        0 <= m.pos <= m.input.len(),
    ensures
        emits_read(m, m.value_step(c).1),
{
    lemma_scan_bounds(m.input, m.pos);
    let input = m.input;
    if is_numeric_or_minus(c) {
        let e = numeric_end(input, m.pos);
        lemma_emits_advance(m, e);
        if e < input.len() {
            lemma_emits_advance(m, e + 1);
        }
    } else if c == QUOTE() {
        let q = string_stop(input, m.pos);
        lemma_emits_advance(m, input.len() as int);
        if q < input.len() {
            lemma_emits_advance(m, q + 1);
        }
    } else if c == OPEN_BRACE() {
        lemma_emits_parse_only(m, m.open(ManifestParseState::ObjectParse));
    } else if c == OPEN_BRACKET() {
        lemma_emits_parse_only(m, m.open(ManifestParseState::ArrayParse));
    } else if c == 116 {
        lemma_emits_literal(m, c, RUE());
    } else if c == 102 {
        lemma_emits_literal(m, c, ALSE());
    } else if c == 110 {
        lemma_emits_literal(m, c, ULL());
    } else {
        lemma_emits_parse_only(m, m);
    }
}

/// Whether a value step reads `c` as the start of a number.
spec fn is_numeric_or_minus(c: u8) -> bool {
    crate::text::is_numeric(c) || c == MINUS()
}

/// Each node read passes exactly the bytes read on to the sink: apart from its parse stack,
/// the reader after a step is the reader before it with the input up to its new position
/// read and written out.
pub proof fn law_step_emits_read(m: MachineSpec)
    requires
        m.wf(),
    ensures
        emits_read(m, m.parse_step().1),
{
    m.lemma_wf_top();
    m.lemma_step_progress();
    lemma_scan_bounds(m.input, m.pos);
    let input = m.input;
    match m.top() {
        ManifestParseState::Uninitialized => {
            let m1 = m.with_stack(seq![ManifestParseState::Empty]);
            lemma_emits_parse_only(m, m1);
            let j = skip_ws(input, m1.pos);
            if j >= input.len() {
                lemma_emits_advance(m1, input.len() as int);
                lemma_emits_trans(m, m1, m1.advance(input.len() as int));
            } else {
                let a = m1.advance(j + 1);
                lemma_emits_advance(m1, j + 1);
                lemma_emits_trans(m, m1, a);
                lemma_emits_parse_only(a, a.open(ManifestParseState::ObjectParse));
                lemma_emits_parse_only(a, a.open(ManifestParseState::ArrayParse));
                lemma_emits_trans(m, a, a.open(ManifestParseState::ObjectParse));
                lemma_emits_trans(m, a, a.open(ManifestParseState::ArrayParse));
            }
        },
        ManifestParseState::Empty => {
            lemma_emits_parse_only(m, m);
        },
        ManifestParseState::ObjectParse => {
            let j = skip_sep(input, m.pos);
            lemma_emits_advance(m, input.len() as int);
            if j < input.len() {
                let a = m.advance(j + 1);
                lemma_emits_advance(m, j + 1);
                if input[j] == QUOTE() {
                    lemma_scan_bounds(input, j + 1);
                    let q = string_stop(input, j + 1);
                    lemma_emits_advance(a, input.len() as int);
                    lemma_emits_trans(m, a, a.advance(input.len() as int));
                    if q < input.len() && input[q] == QUOTE() {
                        lemma_scan_bounds(input, q + 1);
                        let k = skip_ws(input, q + 1);
                        if k < input.len() {
                            let b = a.advance(k + 1);
                            lemma_emits_advance(a, k + 1);
                            lemma_emits_trans(m, a, b);
                            lemma_emits_parse_only(b, b.push_key());
                            lemma_emits_trans(m, b, b.push_key());
                        }
                    }
                } else if input[j] == CLOSE_BRACE() {
                    lemma_emits_parse_only(a, a.close());
                    lemma_emits_trans(m, a, a.close());
                }
            }
        },
        ManifestParseState::ArrayParse => {
            let j = skip_sep(input, m.pos);
            lemma_emits_advance(m, input.len() as int);
            if j < input.len() {
                let a = m.advance(j + 1);
                lemma_emits_advance(m, j + 1);
                if input[j] == CLOSE_BRACKET() {
                    lemma_emits_parse_only(a, a.close());
                    lemma_emits_trans(m, a, a.close());
                } else {
                    lemma_emits_value(a, input[j]);
                    lemma_emits_trans(m, a, a.value_step(input[j]).1);
                }
            }
        },
        ManifestParseState::KeyParsed => {
            let m1 = m.with_stack(m.stack.drop_last());
            lemma_emits_parse_only(m, m1);
            let j = skip_ws(input, m1.pos);
            if j >= input.len() {
                lemma_emits_advance(m1, input.len() as int);
                lemma_emits_trans(m, m1, m1.advance(input.len() as int));
            } else {
                let a = m1.advance(j + 1);
                lemma_emits_advance(m1, j + 1);
                lemma_emits_trans(m, m1, a);
                lemma_emits_value(a, input[j]);
                lemma_emits_trans(m, a, a.value_step(input[j]).1);
            }
        },
    }
}

/// The output file holds exactly what was read of the input, and its cursor is at its end.
pub open spec fn echoing(m: MachineSpec) -> bool {
    &&& m.sink is OutFile
    &&& 0 <= m.pos <= m.input.len()
    &&& m.out == m.input.take(m.pos)
    &&& m.wpos == m.pos
}

/// A reader starts out echoing: nothing read, nothing written.
pub proof fn law_initial_echoing(input: Seq<u8>)
    ensures
        echoing(MachineSpec::initial(input)),
{
    assert(input.take(0) =~= Seq::<u8>::empty());
}

/// Writing to the output file, a reader that has written what it read keeps doing so: after
/// each node the output file holds exactly the input read so far.
pub proof fn law_step_keeps_echoing(m: MachineSpec)
    requires
        m.wf(),
        echoing(m),
    ensures
        echoing(m.parse_step().1),
{
    law_step_emits_read(m);
    let m2 = m.parse_step().1;
    lemma_advance_echoes(m, m2.pos);
    assert(m2.out == m.advance(m2.pos).out);
}

/// Reading on from an echoing reader keeps it echoing.
pub proof fn lemma_advance_echoes(m: MachineSpec, p: int)
    requires
        echoing(m),
        m.pos <= p <= m.input.len(),
    ensures
        echoing(m.advance(p)),
{
    let b = m.input.subrange(m.pos, p);
    let o = overwrite(m.out, m.wpos, b);
    assert(o =~= m.input.take(p));
}

/// Flushing an echoing reader writes the whole input back: what was read through with the
/// output file as the sink comes out as it was read.
pub proof fn law_flush_reproduces(m: MachineSpec)
    requires
        echoing(m),
    ensures
        m.advance(m.input.len() as int).out == m.input,
{
    lemma_advance_echoes(m, m.input.len() as int);
    assert(m.input.take(m.input.len() as int) =~= m.input);
}

/// With nowhere to write, reading writes nothing: the output file and its cursor stay as
/// they are.
pub proof fn law_discard_writes_nothing(m: MachineSpec)
    requires
        m.wf(),
        m.sink is Discard,
    ensures
        m.parse_step().1.sink is Discard,
        m.parse_step().1.out == m.out,
        m.parse_step().1.wpos == m.wpos,
{
    law_step_emits_read(m);
    let m2 = m.parse_step().1;
    assert(with_parse(m2, m.stack, m.depth).out == m.advance(m2.pos).out);
}

/// Reading into a buffer appends to it exactly what was read, and leaves the output file as
/// it is.
pub proof fn law_buffer_collects_read(m: MachineSpec, b: Seq<u8>)
    requires
        m.wf(),
        m.sink == SinkSpec::Buffer(b),
    ensures
        m.parse_step().1.sink == SinkSpec::Buffer(b + m.input.subrange(m.pos, m.parse_step().1.pos)),
        m.parse_step().1.out == m.out,
        m.parse_step().1.wpos == m.wpos,
{
    law_step_emits_read(m);
    let m2 = m.parse_step().1;
    assert(with_parse(m2, m.stack, m.depth).out == m.advance(m2.pos).out);
    assert(with_parse(m2, m.stack, m.depth).sink == m.advance(m2.pos).sink);
}

/// The output file's cursor is at its end: whatever is written is appended.
pub open spec fn at_out_end(m: MachineSpec) -> bool {
    m.wpos == m.out.len()
}

/// `m2`'s output file is `m1`'s with more appended, and its cursor is at its end.
pub open spec fn out_extends(m1: MachineSpec, m2: MachineSpec) -> bool {
    &&& m1.out.len() <= m2.out.len()
    &&& m2.out.subrange(0, m1.out.len() as int) == m1.out
    &&& at_out_end(m2)
}

pub proof fn lemma_extends_same(m1: MachineSpec, m2: MachineSpec)
    requires
        at_out_end(m1),
        m2.out == m1.out,
        m2.wpos == m1.wpos,
    ensures
        out_extends(m1, m2),
{
    assert(m1.out.subrange(0, m1.out.len() as int) =~= m1.out);
}

pub proof fn lemma_extends_trans(m1: MachineSpec, m2: MachineSpec, m3: MachineSpec)
    requires
        out_extends(m1, m2),
        out_extends(m2, m3),
    ensures
        out_extends(m1, m3),
{
    assert(m3.out.subrange(0, m1.out.len() as int) =~= m2.out.subrange(0, m1.out.len() as int));
}

/// Writing at the end of the output file appends.
pub proof fn lemma_emit_extends(m: MachineSpec, b: Seq<u8>)
    requires
        at_out_end(m),
    ensures
        out_extends(m, m.emit(b)),
        out_extends(m, m.emit_outfile(b)),
        m.emit_outfile(b).out == m.out + b,
        m.sink is OutFile ==> m.emit(b).out == m.out + b,
{
    assert(overwrite(m.out, m.wpos, b) =~= m.out + b);
    assert((m.out + b).subrange(0, m.out.len() as int) =~= m.out);
    assert(m.out.subrange(0, m.out.len() as int) =~= m.out);
}

/// A step of the reader only appends to the output file.
pub proof fn lemma_step_extends(m: MachineSpec)
    requires
        m.wf(),
        at_out_end(m),
    ensures
        out_extends(m, m.parse_step().1),
{
    law_step_emits_read(m);
    let m2 = m.parse_step().1;
    lemma_emit_extends(m, m.input.subrange(m.pos, m2.pos));
    assert(with_parse(m2, m.stack, m.depth).out == m.advance(m2.pos).out);
}

/// Reading until a node only appends to the output file.
pub proof fn lemma_run_until_extends(m: MachineSpec, target: NodeSpec, depth: int)
    requires
        m.wf(),
        at_out_end(m),
    ensures
        out_extends(m, m.run_until(target, depth).1),
    decreases m.input.len() - m.pos,
{
    m.lemma_step_progress();
    lemma_step_extends(m);
    let (r, m2) = m.parse_step();
    match r {
        Err(e) => {},
        Ok(n) => {
            if n == target && m2.depth == depth {
            } else if n is Eof {
            } else {
                lemma_run_until_extends(m2, target, depth);
                lemma_extends_trans(m, m2, m2.run_until(target, depth).1);
            }
        },
    }
}

/// Reading an array item only appends to the output file, and puts the sink back as it was,
/// whatever came of the read.
pub proof fn lemma_read_item_extends(m: MachineSpec)
    requires
        m.wf(),
        at_out_end(m),
    ensures
        out_extends(m, m.read_item().2),
        m.read_item().2.sink == m.sink,
{
    if m.top() != ManifestParseState::ArrayParse {
        lemma_extends_same(m, m);
    } else {
        let m0 = m.with_sink(SinkSpec::Buffer(Seq::empty()));
        lemma_extends_same(m, m0);
        m0.lemma_step_progress();
        lemma_step_extends(m0);
        lemma_extends_trans(m, m0, m0.parse_step().1);
        let (r, m1) = m0.parse_step();
        let b1 = buffer_of(m1.sink);
        lemma_emit_extends(m1, b1);
        lemma_extends_trans(m, m1, m1.emit(b1));
        lemma_extends_same(m1.emit(b1), m1.emit(b1).with_sink(m.sink));
        lemma_extends_trans(m, m1.emit(b1), m1.emit(b1).with_sink(m.sink));
        lemma_extends_same(m1, m1.with_sink(m.sink));
        lemma_extends_trans(m, m1, m1.with_sink(m.sink));
        let before = if b1.len() > 0 { b1.drop_last() } else { b1 };
        lemma_emit_extends(m1, before);
        lemma_extends_trans(m, m1, m1.emit_outfile(before));
        let e = m1.emit_outfile(before);
        m1.lemma_emit_wpos(before);
        let mo = e.with_sink(SinkSpec::Buffer(seq![OPEN_BRACE()]));
        let ma = e.with_sink(SinkSpec::Buffer(seq![OPEN_BRACKET()]));
        lemma_extends_same(e, mo);
        lemma_extends_same(e, ma);
        lemma_extends_trans(m, e, mo);
        lemma_extends_trans(m, e, ma);
        if m1.wf() {
            lemma_run_until_extends(mo, NodeSpec::ObjectClose, mo.depth - 1);
            lemma_run_until_extends(ma, NodeSpec::ArrayClose, ma.depth - 1);
            let (_, mo3) = mo.run_until(NodeSpec::ObjectClose, mo.depth - 1);
            let (_, ma3) = ma.run_until(NodeSpec::ArrayClose, ma.depth - 1);
            lemma_extends_trans(m, mo, mo3);
            lemma_extends_trans(m, ma, ma3);
            lemma_extends_same(mo3, mo3.with_sink(m.sink));
            lemma_extends_same(ma3, ma3.with_sink(m.sink));
            lemma_extends_trans(m, mo3, mo3.with_sink(m.sink));
            lemma_extends_trans(m, ma3, ma3.with_sink(m.sink));
        }
    }
}

/// Reading an array item leaves the writer that was active before the read active again
/// afterwards, whatever came of the read: an item, the end of the array, or an error.
pub proof fn law_read_item_restores_sink(m: MachineSpec)
    requires
        m.wf(),
    ensures
        m.read_item().2.sink == m.sink,
{
}

/// `x` appears in `s` as a run of consecutive bytes.
pub open spec fn holds_bytes(s: Seq<u8>, x: Seq<u8>) -> bool {
    exists|i: int| 0 <= i && i + x.len() <= s.len() && #[trigger] s.subrange(i, i + x.len()) == x
}

pub proof fn lemma_holds_extended(m1: MachineSpec, m2: MachineSpec, x: Seq<u8>)
    requires
        out_extends(m1, m2),
        holds_bytes(m1.out, x),
    ensures
        holds_bytes(m2.out, x),
{
    let i = choose|i: int| 0 <= i && i + x.len() <= m1.out.len() && #[trigger] m1.out.subrange(i, i + x.len()) == x;
    assert(m2.out.subrange(i, i + x.len()) =~= m1.out.subrange(i, i + x.len()));
}

pub proof fn lemma_holds_appended(m: MachineSpec, x: Seq<u8>)
    requires
        at_out_end(m),
    ensures
        holds_bytes(m.emit_outfile(x).out, x),
{
    lemma_emit_extends(m, x);
    let o = m.emit_outfile(x).out;
    assert(o.subrange(m.out.len() as int, (m.out.len() + x.len()) as int) =~= x);
}


/// Replacing a value with the output file as the sink only appends to it; the new value is
/// written unless it was written already.
proof fn lemma_replace_extends(m: MachineSpec, value: Seq<u8>, written: bool)
    requires
        m.wf(),
        at_out_end(m),
        m.sink is OutFile,
        m.replace_value(value, written).0 is Ok,
    ensures
        out_extends(m, m.replace_value(value, written).1),
        m.replace_value(value, written).1.sink is OutFile,
        !written ==> holds_bytes(m.replace_value(value, written).1.out, value),
{
    let d = m.with_sink(SinkSpec::Discard);
    lemma_extends_same(m, d);
    d.lemma_step_progress();
    lemma_step_extends(d);
    let (r2, mv) = d.parse_step();
    lemma_extends_trans(m, d, mv);
    let v = r2->Ok_0;
    let mv2 = mv.with_sink(m.sink);
    lemma_extends_same(mv, mv2);
    lemma_extends_trans(m, mv, mv2);
    let dd = mv2.with_sink(SinkSpec::Discard);
    lemma_extends_same(mv2, dd);
    lemma_extends_trans(m, mv2, dd);
    lemma_run_until_extends(dd, NodeSpec::ObjectClose, mv2.depth - 1);
    lemma_run_until_extends(dd, NodeSpec::ArrayClose, mv2.depth - 1);
    let (r3, m3) = if v is ObjectStart {
        mv2.skip_until(NodeSpec::ObjectClose)
    } else if v is ArrayStart {
        mv2.skip_until(NodeSpec::ArrayClose)
    } else {
        (Ok(v), mv2)
    };
    if v is ObjectStart {
        let mo = dd.run_until(NodeSpec::ObjectClose, mv2.depth - 1).1;
        lemma_extends_trans(m, dd, mo);
        lemma_extends_same(mo, mo.with_sink(mv2.sink));
        lemma_extends_trans(m, mo, m3);
    } else if v is ArrayStart {
        let ma = dd.run_until(NodeSpec::ArrayClose, mv2.depth - 1).1;
        lemma_extends_trans(m, dd, ma);
        lemma_extends_same(ma, ma.with_sink(mv2.sink));
        lemma_extends_trans(m, ma, m3);
    }
    let m4 = if written { m3 } else { m3.emit(value) };
    if !written {
        lemma_emit_extends(m3, value);
        lemma_holds_appended(m3, value);
        lemma_extends_trans(m, m3, m4);
    }
    lemma_emit_extends(m4, seq![COMMA()]);
    lemma_extends_trans(m, m4, m4.emit(seq![COMMA()]));
    if !written {
        lemma_holds_extended(m4, m4.emit(seq![COMMA()]), value);
    }
}

/// Writing `b` over the last byte of the output file: the file without that byte, then `b`.
proof fn lemma_overwrite_last(out: Seq<u8>, b: Seq<u8>)
    requires
        out.len() >= 1,
        b.len() >= 1,
    ensures
        overwrite(out, out.len() - 1, b) == out.drop_last() + b,
{
    assert(overwrite(out, out.len() - 1, b) =~= out.drop_last() + b);
}

/// Inserting into an object, with the output file as the sink: where it succeeds, the output
/// holds the value inserted.
#[verifier::spinoff_prover]
proof fn lemma_insert_holds(m: MachineSpec, key: Seq<char>, value: Seq<u8>, written: bool, members: bool, base: int)
    requires
        m.wf(),
        at_out_end(m),
        m.sink is OutFile,
        written ==> holds_bytes(m.out, value),
        m.insert_loop(key, value, written, members, base).0 is Ok,
    ensures
        holds_bytes(m.insert_loop(key, value, written, members, base).1.out, value),
    decreases m.input.len() - m.pos,
{
    m.lemma_step_progress();
    lemma_step_extends(m);
    law_step_emits_read(m);
    let (r, m1) = m.parse_step();
    assert(m1.sink == m.advance(m1.pos).sink);
    if written {
        lemma_holds_extended(m, m1, value);
    }
    let n = r->Ok_0;
    if n is Eof {
    } else if n == NodeSpec::Key(key) {
        lemma_replace_extends(m1, value, written);
        m1.lemma_replace_progress(value, written);
        let m4 = m1.replace_value(value, written).1;
        if written {
            lemma_holds_extended(m1, m4, value);
        }
        lemma_insert_holds(m4, key, value, true, true, base);
    } else if n is ObjectClose && m1.depth == base - 1 {
        if !written {
            let lead = if members { seq![COMMA()] } else { Seq::<u8>::empty() };
            let k = lead + seq![QUOTE()] + vstd::utf8::encode_utf8(key) + seq![QUOTE(), 58u8, 32u8];
            let w = m1.with_wpos(m1.wpos - 1);
            let a = w.emit_outfile(k);
            lemma_overwrite_last(m1.out, k);
            assert(at_out_end(a));
            lemma_emit_extends(a, value);
            lemma_holds_appended(a, value);
            let b = a.emit(value);
            lemma_emit_extends(b, seq![10u8, CLOSE_BRACE()]);
            lemma_holds_extended(b, b.emit_outfile(seq![10u8, CLOSE_BRACE()]), value);
        }
    } else {
        lemma_insert_holds(m1, key, value, written, members || n is Key, base);
    }
}

/// What is inserted stays inserted: inserting a value under a key into an object, with the
/// output file as the sink and its cursor at its end, leaves the output holding the value's
/// bytes wherever it succeeds.
pub proof fn law_inserted_value_kept(m: MachineSpec, key: Seq<char>, value: Seq<u8>)
    requires
        m.wf(),
        at_out_end(m),
        m.sink is OutFile,
        m.top() == ManifestParseState::ObjectParse,
        m.insert_loop(key, value, false, false, m.depth).0 is Ok,
    ensures
        holds_bytes(m.insert_loop(key, value, false, false, m.depth).1.out, value),
{
    lemma_insert_holds(m, key, value, false, false, m.depth);
}

/// Reading until a node into a buffer appends to it exactly what was read, and leaves the
/// output file as it is.
pub proof fn lemma_run_until_buffer(m: MachineSpec, target: NodeSpec, depth: int, b: Seq<u8>)
    requires
        m.wf(),
        m.sink == SinkSpec::Buffer(b),
    ensures
        m.run_until(target, depth).1.sink == SinkSpec::Buffer(
            b + m.input.subrange(m.pos, m.run_until(target, depth).1.pos),
        ),
        m.run_until(target, depth).1.out == m.out,
        m.run_until(target, depth).1.wpos == m.wpos,
    decreases m.input.len() - m.pos,
{
    m.lemma_step_progress();
    law_buffer_collects_read(m, b);
    let (r, m2) = m.parse_step();
    match r {
        Err(e) => {},
        Ok(n) => {
            if n == target && m2.depth == depth {
            } else if n is Eof {
            } else {
                let b2 = b + m.input.subrange(m.pos, m2.pos);
                lemma_run_until_buffer(m2, target, depth, b2);
                m2.lemma_run_until_progress(target, depth);
                let m3 = m2.run_until(target, depth).1;
                assert(b2 + m.input.subrange(m2.pos, m3.pos) =~= b + m.input.subrange(m.pos, m3.pos));
            }
        },
    }
}

/// A step inside an array that opens an object or an array has just read its bracket; one
/// that closes the array has read the whitespace and commas before its bracket, then the
/// bracket.
pub proof fn lemma_array_step_shape(m: MachineSpec)
    requires
        m.wf(),
        m.top() == ManifestParseState::ArrayParse,
    ensures
        m.parse_step().0 matches Ok(NodeSpec::ObjectStart) ==> m.pos < m.parse_step().1.pos
            && m.input[m.parse_step().1.pos - 1] == OPEN_BRACE(),
        m.parse_step().0 matches Ok(NodeSpec::ArrayStart) ==> m.pos < m.parse_step().1.pos
            && m.input[m.parse_step().1.pos - 1] == OPEN_BRACKET(),
        m.parse_step().0 matches Ok(NodeSpec::ArrayClose) ==> skip_sep(m.input, m.pos) < m.input.len()
            && m.input[skip_sep(m.input, m.pos)] == CLOSE_BRACKET()
            && m.parse_step().1.pos == skip_sep(m.input, m.pos) + 1,
{
    lemma_scan_bounds(m.input, m.pos);
    let j = skip_sep(m.input, m.pos);
    if j < m.input.len() {
        let a = m.advance(j + 1);
        assert(a.pos == j + 1);
        if m.input[j] != CLOSE_BRACKET() {
            let c = m.input[j];
            lemma_scan_bounds(m.input, j + 1);
            lemma_lit_bounds(m.input, j + 1, RUE(), 0);
            lemma_lit_bounds(m.input, j + 1, ALSE(), 0);
            lemma_lit_bounds(m.input, j + 1, ULL(), 0);
        }
    }
}

/// An object or array item read whole into a buffer, from a reader whose output file holds
/// the input up to `start` and whose buffer holds the input from `start` to just after the
/// item's opening bracket: writing the item's bytes to the output file after what came before
/// the bracket leaves the output file holding the input up to the item's end.
proof fn lemma_container_echo(m1: MachineSpec, start: int, open: u8, close: NodeSpec)
    requires
        m1.wf(),
        0 <= start < m1.pos <= m1.input.len(),
        m1.input[m1.pos - 1] == open,
        m1.sink == SinkSpec::Buffer(m1.input.subrange(start, m1.pos)),
        m1.out == m1.input.take(start),
        m1.wpos == start,
    ensures
        m1.read_container(open, close).1.wf(),
        m1.pos <= m1.read_container(open, close).1.pos <= m1.input.len(),
        m1.read_container(open, close).1.input == m1.input,
        echoing(
            m1.read_container(open, close).1.with_sink(SinkSpec::OutFile).emit_outfile(
                buffer_of(m1.read_container(open, close).1.sink),
            ),
        ),
{
    let input = m1.input;
    let b1 = buffer_of(m1.sink);
    let before = b1.drop_last();
    assert(before =~= input.subrange(start, m1.pos - 1));
    let e = m1.emit_outfile(before);
    assert(e.out =~= input.take(m1.pos - 1));
    let mo = e.with_sink(SinkSpec::Buffer(seq![open]));
    assert(mo.wf());
    lemma_run_until_buffer(mo, close, mo.depth - 1, seq![open]);
    mo.lemma_run_until_progress(close, mo.depth - 1);
    let m3 = mo.run_until(close, mo.depth - 1).1;
    let b3 = buffer_of(m3.sink);
    assert(b3 =~= input.subrange(m1.pos - 1, m3.pos));
    let f = m3.with_sink(SinkSpec::OutFile).emit_outfile(b3);
    assert(f.out =~= input.take(m3.pos));
}

/// From an echoing reader: an item read, and its bytes written back to the output file, leave
/// the reader echoing. The end of the array read leaves the output file as it was and the
/// output file as the sink, with the read position just after the closing bracket, which
/// follows nothing but whitespace and commas from where the read started.
#[verifier::spinoff_prover]
pub proof fn lemma_read_item_echo(m: MachineSpec)
    requires
        m.wf(),
        echoing(m),
    ensures
        m.read_item().1 matches Some(Ok(_)) ==> echoing(m.read_item().2.emit_outfile(m.read_item().0)),
        m.read_item().1 is None ==> ({
            let m2 = m.read_item().2;
            let j = skip_sep(m.input, m.pos);
            &&& j < m.input.len()
            &&& m.input[j] == CLOSE_BRACKET()
            &&& m2.pos == j + 1
            &&& m2.out == m.out
            &&& m2.wpos == m.wpos
            &&& m2.sink is OutFile
        }),
{
    if m.top() == ManifestParseState::ArrayParse {
        let input = m.input;
        let m0 = m.with_sink(SinkSpec::Buffer(Seq::empty()));
        m0.lemma_step_progress();
        law_buffer_collects_read(m0, Seq::empty());
        lemma_array_step_shape(m0);
        let (r, m1) = m0.parse_step();
        let p1 = m1.pos;
        let b1 = buffer_of(m1.sink);
        assert(b1 =~= input.subrange(m.pos, p1));
        assert(m1.sink == SinkSpec::Buffer(input.subrange(m.pos, p1)));
        match r {
            Err(_) => {},
            Ok(n) => {
                match n {
                    NodeSpec::Value(_) => {
                        let e = m1.with_sink(m.sink).emit_outfile(b1);
                        assert(e.out =~= input.take(p1));
                    },
                    NodeSpec::ObjectStart => {
                        lemma_container_echo(m1, m.pos, OPEN_BRACE(), NodeSpec::ObjectClose);
                    },
                    NodeSpec::ArrayStart => {
                        lemma_container_echo(m1, m.pos, OPEN_BRACKET(), NodeSpec::ArrayClose);
                    },
                    _ => {},
                }
            },
        }
    }
}

/// The items of an array read one by one, each item's bytes written back to the output
/// file; once the array closes, `]` written and the rest of the input flushed. `None` where a
/// read fails.
pub open spec fn write_back(m: MachineSpec) -> Option<MachineSpec>
    decreases m.input.len() - m.pos,
    when m.wf()
{
    let (b, o, m2) = m.read_item();
    match o {
        None => Some(m2.emit(seq![CLOSE_BRACKET()]).advance(m.input.len() as int)),
        Some(Ok(_)) => {
            proof {
                m.lemma_read_item_progress();
            }
            write_back(m2.emit_outfile(b))
        },
        Some(Err(_)) => None,
    }
}

/// Once the array closes, `]` written and the rest flushed after an output file that holds
/// the input up to `k` gives the input with the separators between `k` and the bracket left
/// out.
proof fn lemma_close_flush(m2: MachineSpec, k: int)
    requires
        m2.sink is OutFile,
        0 <= k <= m2.input.len(),
        skip_sep(m2.input, k) < m2.input.len(),
        m2.input[skip_sep(m2.input, k)] == CLOSE_BRACKET(),
        m2.pos == skip_sep(m2.input, k) + 1,
        m2.out == m2.input.take(k),
        m2.wpos == k,
    ensures
        m2.emit(seq![CLOSE_BRACKET()]).advance(m2.input.len() as int).out
            == m2.input.take(k) + m2.input.skip(skip_sep(m2.input, k)),
{
    let input = m2.input;
    lemma_scan_bounds(input, k);
    let j = skip_sep(input, k);
    let e = m2.emit(seq![CLOSE_BRACKET()]);
    lemma_emit_extends(m2, seq![CLOSE_BRACKET()]);
    let rest = input.subrange(j + 1, input.len() as int);
    lemma_emit_extends(e, rest);
    assert(e.advance(input.len() as int).out == e.emit(rest).out);
    assert(input.skip(j) =~= seq![CLOSE_BRACKET()] + rest);
    assert(input.take(k) + seq![CLOSE_BRACKET()] + rest =~= input.take(k) + input.skip(j));
}

/// Writing back each array item as it is read reproduces the manifest: from a reader that has
/// written out what it read, reading the items of an array, writing each item's bytes back,
/// then writing `]` and flushing, gives the input again, but for the whitespace and commas
/// that the read closing the array passed over before its bracket.
#[verifier::spinoff_prover]
pub proof fn law_write_back_reproduces(m: MachineSpec)
    requires
        m.wf(),
        echoing(m),
        write_back(m) is Some,
    ensures
        exists|k: int|
            #![trigger m.input.take(k)]
            m.pos <= k && skip_sep(m.input, k) < m.input.len()
                && m.input[skip_sep(m.input, k)] == CLOSE_BRACKET()
                && write_back(m)->Some_0.out == m.input.take(k) + m.input.skip(skip_sep(m.input, k)),
    decreases m.input.len() - m.pos,
{
    lemma_read_item_echo(m);
    m.lemma_read_item_progress();
    let (b, o, m2) = m.read_item();
    match o {
        None => {
            lemma_close_flush(m2, m.pos);
        },
        Some(Ok(_)) => {
            let n = m2.emit_outfile(b);
            assert(n.wf());
            law_write_back_reproduces(n);
            let k = choose|k: int|
                #![trigger n.input.take(k)]
                n.pos <= k && skip_sep(n.input, k) < n.input.len()
                    && n.input[skip_sep(n.input, k)] == CLOSE_BRACKET()
                    && write_back(n)->Some_0.out == n.input.take(k) + n.input.skip(skip_sep(n.input, k));
            assert(m.input.take(k) == n.input.take(k));
        },
        Some(Err(_)) => {},
    }
}

/// Every byte that `skip_sep` passes over is whitespace or a comma.
proof fn lemma_skip_sep_range(input: Seq<u8>, p: int)
    requires
        0 <= p <= input.len(),
    ensures
        forall|i: int| p <= i < skip_sep(input, p) ==> is_ws(#[trigger] input[i]) || input[i] == COMMA(),
    decreases input.len() - p,
{
    if p < input.len() {
        lemma_skip_sep_range(input, p + 1);
    }
}

/// No closing bracket in `input` follows whitespace or a comma.
pub open spec fn tight_brackets(input: Seq<u8>) -> bool {
    forall|i: int|
        0 < i < input.len() && #[trigger] input[i] == CLOSE_BRACKET() ==> !is_ws(input[i - 1]) && input[i - 1] != COMMA()
}

/// A manifest that is an array, opened with the output file as the sink: reading its items one
/// by one, writing each item's bytes back to the output file, then writing `]` and flushing,
/// gives the manifest again, but for the whitespace and commas that the read closing the
/// array passed over before its bracket.
pub proof fn law_array_written_back(input: Seq<u8>)
    requires
        MachineSpec::initial(input).init_step().0 == Ok::<NodeSpec, ErrSpec>(NodeSpec::ArrayStart),
        write_back(MachineSpec::initial(input).init_step().1) is Some,
    ensures
        exists|k: int|
            #![trigger input.take(k)]
            0 <= k && skip_sep(input, k) < input.len() && input[skip_sep(input, k)] == CLOSE_BRACKET()
                && write_back(MachineSpec::initial(input).init_step().1)->Some_0.out
                == input.take(k) + input.skip(skip_sep(input, k)),
        tight_brackets(input) ==> write_back(MachineSpec::initial(input).init_step().1)->Some_0.out == input,
{
    let m0 = MachineSpec::initial(input);
    assert(m0.stack.drop_last() =~= Seq::<ManifestParseState>::empty());
    assert(containers(Seq::<ManifestParseState>::empty()) == 0);
    assert(containers(m0.stack) == 0);
    assert(m0.wf());
    law_initial_echoing(input);
    law_step_keeps_echoing(m0);
    m0.lemma_step_progress();
    assert(m0.parse_step() == m0.init_step());
    let m1 = m0.init_step().1;
    law_write_back_reproduces(m1);
    let k = choose|k: int|
        #![trigger m1.input.take(k)]
        m1.pos <= k && skip_sep(m1.input, k) < m1.input.len()
            && m1.input[skip_sep(m1.input, k)] == CLOSE_BRACKET()
            && write_back(m1)->Some_0.out == m1.input.take(k) + m1.input.skip(skip_sep(m1.input, k));
    assert(input.take(k) == m1.input.take(k));
    if tight_brackets(input) {
        lemma_scan_bounds(input, k);
        lemma_skip_sep_range(input, k);
        let j = skip_sep(input, k);
        if j > k {
            assert(input[j] == CLOSE_BRACKET());
            assert(is_ws(input[j - 1]) || input[j - 1] == COMMA());
        }
        assert(input.take(k) + input.skip(k) =~= input);
    }
}

} // verus!
